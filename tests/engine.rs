use updater::get_config_filename;
use updater::module::{is_valid_module_name, HarvestStep, Module, OutboxEntry};
use updater::snapshot::{last_seq, metadata_json, next_seq, snapshot_name};
use updater::store::{ChangeRow, MemoryStore};
use updater::text::{decimal_i64, decimal_u64, decimal_u64_width5};
use updater::types::{
    value_to_db_string, Change, Config, ConfigTarget, Discovery, JsonValue, ModuleConfig,
    ModuleRequest, ModuleResponse, Observation, Resource,
};
use updater::updater::{StoreAction, Updater};
use updater::utils::sha256;

fn config_with(modules: &[(&str, bool)]) -> Config {
    Config {
        targets: Vec::new(),
        modules: modules
            .iter()
            .map(|(n, slow)| {
                (
                    n.to_string(),
                    ModuleConfig { command: format!("/bin/{}", n), slow: *slow },
                )
            })
            .collect(),
    }
}

fn response(operation: &str, module: &str, resource: &str) -> ModuleResponse {
    ModuleResponse {
        operation: operation.to_string(),
        resource: resource.to_string(),
        module: module.to_string(),
        timestamp: 1700000000,
        source: None,
        attribute: None,
        value: None,
        old_value: None,
        new_value: None,
        severity: None,
    }
}

#[test]
fn config_filename_prefers_override() {
    assert_eq!(get_config_filename(true), "./config/config-override.json");
    assert_eq!(get_config_filename(false), "./config/config.json");
}

#[test]
fn decimal_texts() {
    assert_eq!(decimal_u64(0), "0");
    assert_eq!(decimal_u64(1234567890), "1234567890");
    assert_eq!(decimal_u64(u64::MAX), "18446744073709551615");
    assert_eq!(decimal_i64(-42), "-42");
    assert_eq!(decimal_i64(i64::MIN), "-9223372036854775808");
    assert_eq!(decimal_u64_width5(7), "00007");
    assert_eq!(decimal_u64_width5(123456), "123456");
}

#[test]
fn sha256_known_digests() {
    assert_eq!(
        sha256(""),
        "e3b0c44298fc1c149afbf4c8996fb92427ae41e4649b934ca495991b7852b855"
    );
    assert_eq!(
        sha256("abc"),
        "ba7816bf8f01cfea414140de5dae2223b00361a396177a9cb410ff61f20015ad"
    );
}

#[test]
fn request_json_sorted_keys() {
    let r = ModuleRequest::observation("r1", "ping", 5);
    assert_eq!(
        r.to_json(),
        r#"{"module":"ping","operation":"observation","resource":"r1","timestamp":5}"#
    );
    assert_eq!(
        r.without_timestamp(),
        r#"{"module":"ping","operation":"observation","resource":"r1"}"#
    );
    let c = ModuleRequest::change("r1", "ping", "latency", "3", "7", -1);
    assert_eq!(
        c.to_json(),
        r#"{"attribute":"latency","module":"ping","new_value":"7","old_value":"3","operation":"change","resource":"r1","timestamp":-1}"#
    );
    let d = ModuleRequest::discovery("a\"b", "ping", "config.json", 0);
    assert_eq!(
        d.without_timestamp(),
        r#"{"module":"ping","operation":"discovery","resource":"a\"b","source":"config.json"}"#
    );
}

#[test]
fn control_characters_escaped() {
    let r = ModuleRequest::observation("a\u{1}\n\\", "ping", 0);
    assert_eq!(
        r.without_timestamp(),
        r#"{"module":"ping","operation":"observation","resource":"a\u0001\n\\"}"#
    );
}

#[test]
fn value_coercion() {
    assert_eq!(value_to_db_string(&JsonValue::Str("x y".to_string())), "x y");
    assert_eq!(value_to_db_string(&JsonValue::Number("3".to_string())), "3");
    assert_eq!(value_to_db_string(&JsonValue::Null), "");
    assert_eq!(value_to_db_string(&JsonValue::Bool(true)), "true");
    assert_eq!(value_to_db_string(&JsonValue::Bool(false)), "false");
    assert_eq!(
        value_to_db_string(&JsonValue::Nested("[1,2]".to_string())),
        "[1,2]"
    );
}

#[test]
fn module_names_checked() {
    assert!(is_valid_module_name("ping"));
    assert!(is_valid_module_name("net-scan_2"));
    assert!(!is_valid_module_name("a b"));
    assert!(!is_valid_module_name("a/b"));
    assert!(!is_valid_module_name("a.b"));
    assert!(!is_valid_module_name("a,b"));
    assert!(!is_valid_module_name("a'b"));
    assert!(!is_valid_module_name("a\"b"));
    assert!(!is_valid_module_name("a\nb"));
    assert!(!is_valid_module_name("a\tb"));
    assert!(!is_valid_module_name("a\u{a0}b"));
    assert!(!is_valid_module_name("a\u{3000}b"));
    assert!(is_valid_module_name("caf\u{e9}"));
}

#[test]
fn module_folders_and_command() {
    let m = Module::new("ping", "/bin/ping-module", false);
    assert_eq!(m.input_folder(), "/paintdry/mount-state/modules/ping/requests");
    assert_eq!(m.output_folder(), "/paintdry/mount-state/modules/ping/responses");
    assert_eq!(
        m.command(),
        "/bin/ping-module '/paintdry/mount-state/modules/ping/requests' '/paintdry/mount-state/modules/ping/responses' '/paintdry/mount-state/' 2>&1"
    );
    assert!(!m.is_running());
}

#[test]
fn request_file_named_by_identity_digest() {
    let m = Module::new("ping", "cmd", false);
    let batch = vec![ModuleRequest::observation("r1", "ping", 1700000000)];
    let f = m.write_requests(&batch).unwrap();
    let identity = r#"[{"module":"ping","operation":"observation","resource":"r1"}]"#;
    assert_eq!(
        f.path,
        format!("/paintdry/mount-state/modules/ping/requests/{}.json", sha256(identity))
    );
    assert_eq!(
        f.contents,
        "[{\"module\":\"ping\",\"operation\":\"observation\",\"resource\":\"r1\",\"timestamp\":1700000000}]\n"
    );
    assert!(m.write_requests(&[]).is_none());
}

#[test]
fn dedupe_under_resend() {
    let mut m = Module::new("ping", "cmd", true);
    let p1 = m.send_requests(vec![ModuleRequest::observation("r1", "ping", 100)]);
    let p2 = m.send_requests(vec![ModuleRequest::observation("r1", "ping", 200)]);
    let f1 = p1.file.unwrap();
    let f2 = p2.file.unwrap();
    assert_eq!(f1.path, f2.path);
    assert_ne!(f1.contents, f2.contents);
}

#[test]
fn distinct_batches_get_distinct_files() {
    let m = Module::new("ping", "cmd", false);
    let a = m.write_requests(&[ModuleRequest::observation("r1", "ping", 1)]).unwrap();
    let b = m.write_requests(&[ModuleRequest::observation("r2", "ping", 1)]).unwrap();
    assert_ne!(a.path, b.path);
}

#[test]
fn start_spawns_once_while_running() {
    let mut m = Module::new("ping", "cmd", false);
    let p = m.send_requests(vec![ModuleRequest::observation("r1", "ping", 1)]);
    assert!(p.spawn);
    assert!(p.file.is_some());
    assert!(m.is_running());
    let p = m.send_requests(vec![ModuleRequest::observation("r2", "ping", 1)]);
    assert!(!p.spawn);
    assert!(p.file.is_none());
    m.process_exited();
    let p = m.start();
    assert!(p.spawn);
    let f = p.file.unwrap();
    assert!(f.contents.contains("\"r2\""));
    assert!(!f.contents.contains("\"r1\""));
}

#[test]
fn slow_module_never_spawned() {
    let mut m = Module::new("watcher", "cmd", true);
    let p = m.start();
    assert!(!p.spawn);
    assert!(p.file.is_none());
    let p = m.send_requests(vec![ModuleRequest::observation("r1", "watcher", 1)]);
    assert!(!p.spawn);
    assert!(p.file.unwrap().path.starts_with("/paintdry/mount-state/modules/watcher/requests/"));
    assert!(!m.is_running());
    let steps = m.process_all_responses();
    assert_eq!(steps.len(), 1);
    assert!(matches!(steps[0], HarvestStep::Collect));
}

#[test]
fn full_harvest_waits_twice() {
    let m = Module::new("ping", "cmd", false);
    let steps = m.process_all_responses();
    assert_eq!(steps.len(), 4);
    assert!(matches!(steps[0], HarvestStep::Wait));
    assert!(matches!(steps[1], HarvestStep::Start));
    assert!(matches!(steps[2], HarvestStep::Wait));
    assert!(matches!(steps[3], HarvestStep::Collect));
}

#[test]
fn only_json_files_consumed() {
    let m = Module::new("ping", "cmd", false);
    let entries = vec![
        OutboxEntry { name: "a.json".to_string(), is_file: true },
        OutboxEntry { name: ".json".to_string(), is_file: true },
        OutboxEntry { name: "b.json.tmp".to_string(), is_file: true },
        OutboxEntry { name: "dir.json".to_string(), is_file: false },
        OutboxEntry { name: "c.d.json".to_string(), is_file: true },
    ];
    let files = m.process_responses(&entries);
    assert_eq!(
        files,
        vec![
            "/paintdry/mount-state/modules/ping/responses/a.json".to_string(),
            "/paintdry/mount-state/modules/ping/responses/c.d.json".to_string(),
        ]
    );
}

#[test]
fn cold_start_single_target() {
    let mut config = config_with(&[("ping", false)]);
    config.targets.push(ConfigTarget {
        modules: vec!["ping".to_string()],
        resources: vec!["r1".to_string()],
    });
    let mut u = Updater::new();
    assert!(u.get_or_create_module("ping", &config));
    let first = u.start_module("ping").unwrap();
    assert!(first.spawn);
    assert!(first.file.is_none());
    u.module_exited("ping");
    let plan = u.process_config_target("r1", "ping", 1700000000).unwrap();
    let f = plan.file.unwrap();
    assert!(f.path.starts_with("/paintdry/mount-state/modules/ping/requests/"));
    assert_eq!(
        f.contents,
        "[{\"module\":\"ping\",\"operation\":\"discovery\",\"resource\":\"r1\",\"source\":\"config.json\",\"timestamp\":1700000000}]\n"
    );
    let seq = next_seq(last_seq(None));
    assert_eq!(seq, 1);
    let name = snapshot_name(seq, "2024-01-02T03:04:05");
    assert_eq!(name, "00001-2024-01-02T03:04:05");
    assert_eq!(
        metadata_json("2024-01-02T03:04:05", &name, seq),
        "{\n  \"last_update\": {\n    \"name\": \"00001-2024-01-02T03:04:05\",\n    \"seq\": 1,\n    \"time\": \"2024-01-02T03:04:05\"\n  }\n}\n"
    );
}

#[test]
fn unknown_target_module_skipped() {
    let config = config_with(&[("ping", false)]);
    let mut u = Updater::new();
    assert!(!u.get_or_create_module("nope", &config));
    assert!(u.process_config_target("r1", "nope", 1).is_none());
    assert!(u.module_names().is_empty());
}

#[test]
fn observation_round_trip() {
    let mut u = Updater::new();
    let mut resp = response("observation", "ping", "r1");
    resp.attribute = Some("latency".to_string());
    resp.value = Some(JsonValue::Number("3".to_string()));
    let obs = match u.process_response("ping", resp) {
        StoreAction::UpsertObservation(o) => o,
        _ => panic!("expected an observation"),
    };
    assert_eq!(obs.value, "3");
    assert_eq!(obs.severity, "");
    assert_eq!(obs.attribute, "latency");
    assert_eq!(obs.timestamp, 1700000000);
    let mut store = MemoryStore::new();
    store.upsert_observation(&obs);
    let row = &store.observations[0];
    assert_eq!((row.module.as_str(), row.resource.as_str(), row.attribute.as_str()), ("ping", "r1", "latency"));
    assert_eq!(row.value, "3");
    assert_eq!(row.severity, "");
    assert_eq!(row.first_seen, 1700000000);
    assert_eq!(row.last_changed, 1700000000);
    assert_eq!(row.last_seen, 1700000000);
}

fn obs(value: &str, ts: i64) -> Observation {
    Observation {
        resource: "r1".to_string(),
        module: "ping".to_string(),
        attribute: "latency".to_string(),
        value: value.to_string(),
        timestamp: ts,
        severity: String::new(),
    }
}

#[test]
fn last_changed_moves_only_on_new_value() {
    let mut store = MemoryStore::new();
    store.upsert_observation(&obs("3", 10));
    store.upsert_observation(&obs("3", 20));
    assert_eq!(store.observations.len(), 1);
    assert_eq!(store.observations[0].last_changed, 10);
    assert_eq!(store.observations[0].last_seen, 20);
    store.upsert_observation(&obs("4", 30));
    assert_eq!(store.observations[0].last_changed, 30);
    assert_eq!(store.observations[0].first_seen, 10);
    assert_eq!(store.observations[0].value, "4");
}

fn change_row(severity: &str) -> ChangeRow {
    ChangeRow {
        module: "ping".to_string(),
        resource: "r1".to_string(),
        attribute: "latency".to_string(),
        old_value: "3".to_string(),
        new_value: "7".to_string(),
        severity: severity.to_string(),
        timestamp: 1700000000,
    }
}

#[test]
fn change_classification() {
    let config = config_with(&[("ping", false)]);
    let mut store = MemoryStore::new();
    store.add_change(change_row(""));
    let mut u = Updater::new();
    // tick A: the change goes out to its module
    let changes = store.list_unclassified_changes();
    assert_eq!(changes.len(), 1);
    let plans = u.process_changes(&config, &changes);
    assert_eq!(plans.len(), 1);
    assert_eq!(plans[0].0, "ping");
    let f = plans[0].1.as_ref().unwrap().file.as_ref().unwrap();
    assert!(f.contents.contains("\"operation\":\"change\""));
    assert!(f.contents.contains("\"old_value\":\"3\""));
    // tick B: the module answers with a severity
    let mut resp = response("change", "ping", "r1");
    resp.attribute = Some("latency".to_string());
    resp.old_value = Some(JsonValue::Number("3".to_string()));
    resp.new_value = Some(JsonValue::Number("7".to_string()));
    resp.severity = Some("warn".to_string());
    let c = match u.process_response("ping", resp) {
        StoreAction::ClassifyChange(c) => c,
        _ => panic!("expected a change"),
    };
    store.classify_change(&c);
    assert_eq!(store.changes[0].severity, "warn");
    // tick C: nothing left to send
    assert!(store.list_unclassified_changes().is_empty());
}

#[test]
fn classified_severity_locked() {
    let mut store = MemoryStore::new();
    store.add_change(change_row("critical"));
    store.add_change(change_row("unknown"));
    let c = Change {
        resource: "r1".to_string(),
        module: "other".to_string(),
        attribute: "latency".to_string(),
        old_value: "3".to_string(),
        new_value: "7".to_string(),
        severity: "low".to_string(),
        timestamp: 0,
    };
    store.classify_change(&c);
    assert_eq!(store.changes[0].severity, "critical");
    assert_eq!(store.changes[1].severity, "low");
}

#[test]
fn changes_grouped_per_module() {
    let config = config_with(&[("ping", false), ("dns", false)]);
    let mk = |m: &str, r: &str| Change {
        resource: r.to_string(),
        module: m.to_string(),
        attribute: "a".to_string(),
        old_value: "1".to_string(),
        new_value: "2".to_string(),
        severity: String::new(),
        timestamp: 5,
    };
    let changes = vec![mk("dns", "x"), mk("ghost", "y"), mk("ping", "z"), mk("dns", "w")];
    let mut u = Updater::new();
    let plans = u.process_changes(&config, &changes);
    assert_eq!(plans.len(), 3);
    let names: Vec<&str> = plans.iter().map(|(n, _)| n.as_str()).collect();
    assert_eq!(names, vec!["dns", "ghost", "ping"]);
    let dns = plans[0].1.as_ref().unwrap().file.as_ref().unwrap();
    assert!(dns.contents.contains("\"x\"") && dns.contents.contains("\"w\""));
    assert!(dns.contents.find("\"x\"").unwrap() < dns.contents.find("\"w\"").unwrap());
    assert!(plans[1].1.is_none());
    assert!(plans[2].1.is_some());
    assert_eq!(u.module_names(), vec!["dns".to_string(), "ping".to_string()]);
}

#[test]
fn redirected_discovery() {
    let config = config_with(&[("scanner", false), ("ping", false)]);
    let mut u = Updater::new();
    assert!(u.get_or_create_module("scanner", &config));
    let mut resp = response("discovery", "ping", "r2");
    resp.source = Some("scan".to_string());
    assert!(matches!(u.process_response("scanner", resp), StoreAction::Deferred));
    let files = u.process_discovery_backlog(&config, 1700000000);
    assert_eq!(files.len(), 1);
    assert!(files[0].path.starts_with("/paintdry/mount-state/modules/ping/requests/"));
    assert_eq!(
        files[0].contents,
        "[{\"module\":\"ping\",\"operation\":\"discovery\",\"resource\":\"r2\",\"source\":\"scan\",\"timestamp\":1700000000}]\n"
    );
    assert!(u.process_discovery_backlog(&config, 1).is_empty());
    // next tick: ping accepts the discovery
    let mut resp = response("discovery", "ping", "r2");
    resp.source = Some("scan".to_string());
    let (res, source) = match u.process_response("ping", resp) {
        StoreAction::UpsertResource(r, s) => (r, s),
        _ => panic!("expected a resource"),
    };
    let mut store = MemoryStore::new();
    store.upsert_resource(&res, &source, 1700000000);
    let rows = store.list_resources();
    assert_eq!(rows.len(), 1);
    assert_eq!((rows[0].module.as_str(), rows[0].resource.as_str()), ("ping", "r2"));
    assert_eq!(rows[0].source.as_deref(), Some("scan"));
}

#[test]
fn discovery_for_unknown_module_dropped() {
    let config = config_with(&[("scanner", false)]);
    let mut u = Updater::new();
    let d = Discovery { resource: "r".to_string(), module: "ghost".to_string(), source: String::new() };
    assert!(u.process_discovery("scanner", d).is_none());
    assert!(u.process_discovery_backlog(&config, 1).is_empty());
    assert!(u.module_names().is_empty());
}

#[test]
fn no_changes_touch_no_handle() {
    let config = config_with(&[("ping", false)]);
    let mut u = Updater::new();
    assert!(u.get_or_create_module("ping", &config));
    assert!(u.process_changes(&config, &Vec::new()).is_empty());
    assert!(!u.module("ping").unwrap().is_running());
    assert_eq!(u.module_names(), vec!["ping".to_string()]);
}

#[test]
fn unknown_operation_ignored() {
    let mut u = Updater::new();
    assert!(matches!(u.process_response("ping", response("bogus", "ping", "r1")), StoreAction::Ignored));
}

#[test]
fn resources_fanned_out_once_per_tick() {
    let config = config_with(&[("ping", false)]);
    let mut u = Updater::new();
    let r = Resource { resource: "r1".to_string(), module: "ping".to_string(), source: None };
    let plans = u.setup_requests(&vec![r], &config, 9);
    let f = plans[0].as_ref().unwrap().file.as_ref().unwrap();
    assert_eq!(
        f.contents,
        "[{\"module\":\"ping\",\"operation\":\"discovery\",\"resource\":\"r1\",\"source\":\"\",\"timestamp\":9},{\"module\":\"ping\",\"operation\":\"observation\",\"resource\":\"r1\",\"timestamp\":9}]\n"
    );
    let again = Resource { resource: "r1".to_string(), module: "ping".to_string(), source: None };
    assert!(u.initiate_requests(&again, &config, 10).is_none());
}

#[test]
fn resource_upsert_keeps_one_row() {
    let mut store = MemoryStore::new();
    let r = Resource { resource: "r1".to_string(), module: "ping".to_string(), source: None };
    store.upsert_resource(&r, "config.json", 1);
    store.upsert_resource(&r, "other", 2);
    assert_eq!(store.resources.len(), 1);
    assert_eq!(store.resources[0].last_seen, 2);
    assert_eq!(store.resources[0].source.as_deref(), Some("config.json"));
}

#[test]
fn sequence_advances_per_tick() {
    let mut seq = last_seq(Some(41));
    for _ in 0..3 {
        seq = next_seq(seq);
    }
    assert_eq!(seq, 44);
}

#[test]
fn resource_from_discovery_and_change_request() {
    let d = Discovery { resource: "r".to_string(), module: "m".to_string(), source: "s".to_string() };
    let r = Resource::from_discovery(&d);
    assert_eq!(r.source.as_deref(), Some("s"));
    let c = Change {
        resource: "r".to_string(),
        module: "m".to_string(),
        attribute: "a".to_string(),
        old_value: "o".to_string(),
        new_value: "n".to_string(),
        severity: String::new(),
        timestamp: 3,
    };
    let q = c.to_request();
    assert_eq!(q.operation, "change");
    assert_eq!(q.new_value.as_deref(), Some("n"));
    assert_eq!(q.timestamp, 3);
}
