use rustkube::apimachinery::certs::{cert_not_after_unix, generate_ca, generate_server_cert};
use rustkube::apimachinery::error::Error;
use rustkube::apimachinery::kubevirt::wants_running;
use rustkube::apimachinery::meta::{resource_version_to_revision, revision_to_resource_version};
use rustkube::apimachinery::metrics::{
    boot_time_secs, fields_of, refresh_process_metrics, set_leader, ProcFiles, StoreTimer,
};
use rustkube::apimachinery::quantity::{format_bytes, parse_bytes, parse_cpu_millis};
use rustkube::apimachinery::rbac::{AuthorizationDecision, AuthorizationRequest};
use rustkube::apimachinery::selector;
use rustkube::apimachinery::startup::{
    is_complete_pem, pem_file, token_file, trimmed, FileRead, Report, WaitStep,
};
use rustkube::apimachinery::taint::{
    add_taint, pod_tolerates, remove_taint, toleration_matches, verdict_for, Verdict,
};
use rustkube::apimachinery::watch::WatchEvent;
use rustkube::json::Json;
use rustkube::outside::parse_json;

fn json(text: &str) -> Json {
    match parse_json(text.as_bytes()) {
        Ok(v) => v,
        Err(e) => panic!("{e}: {text}"),
    }
}

// Certificates

fn now() -> i64 {
    chrono::Utc::now().timestamp()
}

#[test]
fn parses_not_after_of_generated_cert() {
    // A freshly generated cert expires in the future.
    let ca = match generate_ca("test-ca") {
        Ok(ca) => ca,
        Err(_) => panic!("no authority"),
    };
    let ts = cert_not_after_unix(ca.cert_pem.as_bytes()).expect("parse notAfter");
    assert!(ts > now(), "expiry must be in the future");
}

#[test]
fn a_generated_cert_has_a_real_lifetime() {
    let leaf = match generate_server_cert("test", &vec!["localhost".to_string()]) {
        Ok(leaf) => leaf,
        Err(_) => panic!("no certificate"),
    };
    let days = (cert_not_after_unix(leaf.cert_pem.as_bytes()).unwrap() - now()) / 86_400;
    assert!((364..=366).contains(&days), "leaf should live a year, got {days} days");

    let ca = match generate_ca("test-ca") {
        Ok(ca) => ca,
        Err(_) => panic!("no authority"),
    };
    let ca_days = (cert_not_after_unix(ca.cert_pem.as_bytes()).unwrap() - now()) / 86_400;
    assert!((3649..=3651).contains(&ca_days), "CA should live ten years, got {ca_days}");
}

#[test]
fn a_certificate_is_for_the_names_it_was_asked_for() {
    let names = vec!["kubernetes".to_string(), "localhost".to_string()];
    let leaf = match generate_server_cert("kube-apiserver", &names) {
        Ok(leaf) => leaf,
        Err(_) => panic!("no certificate"),
    };
    let (_, block) = x509_parser::pem::parse_x509_pem(leaf.cert_pem.as_bytes()).unwrap();
    let (_, cert) = x509_parser::parse_x509_certificate(&block.contents).unwrap();
    let cn: Vec<&str> =
        cert.subject().iter_common_name().map(|a| a.as_str().unwrap()).collect();
    assert_eq!(cn, ["kube-apiserver"]);
    let sans = cert.subject_alternative_name().unwrap().unwrap().value;
    let got: Vec<String> = sans
        .general_names
        .iter()
        .map(|n| match n {
            x509_parser::extensions::GeneralName::DNSName(d) => d.to_string(),
            _ => panic!("a name that is no DNS name"),
        })
        .collect();
    assert_eq!(got, names);
    assert!(!cert.is_ca());
    let skew = now() - cert.validity().not_before.timestamp();
    assert!((300..=310).contains(&skew), "the certificate reaches back {skew} seconds");
    assert!(leaf.key_pem.contains("PRIVATE KEY"));

    let ca = match generate_ca("test-ca") {
        Ok(ca) => ca,
        Err(_) => panic!("no authority"),
    };
    let (_, block) = x509_parser::pem::parse_x509_pem(ca.cert_pem.as_bytes()).unwrap();
    let (_, cert) = x509_parser::parse_x509_certificate(&block.contents).unwrap();
    assert!(cert.is_ca());
}

#[test]
fn bad_pem_is_none() {
    assert!(cert_not_after_unix(b"not a pem").is_none());
}

#[test]
fn a_name_that_is_no_dns_name_makes_no_certificate() {
    let made = generate_server_cert("test", &vec!["caf\u{e9}".to_string()]);
    assert!(matches!(made, Err(Error::Tls(_))));
}

// Virtual machines

#[test]
fn run_strategy_wins_over_the_boolean() {
    assert!(wants_running(&json(r#"{"spec": {"running": false, "runStrategy": "Always"}}"#)));
    assert!(!wants_running(&json(r#"{"spec": {"running": true, "runStrategy": "Halted"}}"#)));
}

#[test]
fn manual_falls_through_to_what_start_and_stop_set() {
    assert!(wants_running(&json(r#"{"spec": {"running": true, "runStrategy": "Manual"}}"#)));
    assert!(!wants_running(&json(r#"{"spec": {"running": false, "runStrategy": "Manual"}}"#)));
}

#[test]
fn a_vm_that_says_nothing_does_not_start_a_guest() {
    assert!(!wants_running(&json(r#"{"spec": {}}"#)));
    assert!(!wants_running(&json("{}")));
}

#[test]
fn the_boolean_still_works() {
    assert!(wants_running(&json(r#"{"spec": {"running": true}}"#)));
    assert!(!wants_running(&json(r#"{"spec": {"running": false}}"#)));
}

// Metrics

#[test]
fn a_command_name_with_spaces_does_not_shift_the_fields() {
    let line = "1234 (kube (weird) name) S 1 2 3 4 5 6 7 8 9 10 11 12 13 14";
    let fields = fields_of(line).unwrap();
    assert_eq!(fields[0], "S", "state comes first after the comm");
    assert_eq!(fields[14], "14");
    assert!(fields_of("no command here").is_none());
}

#[test]
fn the_process_metrics_are_those_of_its_files() {
    let stat = "7 (a b) S 1 2 3 4 5 6 7 8 9 10 250 150 13 14 15 16 17 18 4200 20";
    let p = ProcFiles {
        stat: Some(stat.to_string()),
        boot: Some("cpu 1 2 3\nbtime 1700000000\nprocesses 4\n".to_string()),
        status: Some("Name:\tx\nVmSize:\t  2048 kB\nVmRSS:\t 1024 kB\n".to_string()),
        open_fds: Some(12),
        limits: Some(
            "Limit Soft Hard Units\nMax open files            1024    4096   files\n".to_string(),
        ),
    };
    let got: Vec<(&str, u128)> =
        refresh_process_metrics(&p).iter().map(|s| (s.name, s.hundredths)).collect();
    assert_eq!(
        got,
        vec![
            ("process_cpu_seconds_total", 400),
            ("process_start_time_seconds", 170000004200),
            ("process_virtual_memory_bytes", 2048 * 1024 * 100),
            ("process_resident_memory_bytes", 1024 * 1024 * 100),
            ("process_open_fds", 1200),
            ("process_max_fds", 102400),
        ]
    );
}

#[test]
fn what_cannot_be_read_is_absent() {
    let p = ProcFiles { stat: None, boot: None, status: None, open_fds: None, limits: None };
    assert!(refresh_process_metrics(&p).is_empty());
    assert_eq!(boot_time_secs("cpu 1\n"), None);
    assert_eq!(boot_time_secs("btime 12\n"), Some(12));
}

#[test]
fn leadership_is_one_or_zero() {
    assert_eq!(set_leader(true).name, "leader_election_master_status");
    assert_eq!(set_leader(true).hundredths, 100);
    assert_eq!(set_leader(false).hundredths, 0);
}

#[test]
fn a_store_timer_knows_what_it_times() {
    let t = StoreTimer::new("get", "pods".to_string());
    assert_eq!(t.operation(), "get");
    assert_eq!(t.resource(), "pods");
    let first = t.elapsed_nanos();
    assert!(t.elapsed_nanos() >= first);
}

// Quantities

#[test]
fn binary_suffixes() {
    assert_eq!(parse_bytes("1Ki"), 1024);
    assert_eq!(parse_bytes("1Mi"), 1024 * 1024);
    assert_eq!(parse_bytes("1Gi"), 1024 * 1024 * 1024);
    assert_eq!(parse_bytes("2Ti"), 2 * 1024u64.pow(4));
}

#[test]
fn decimal_suffixes_are_not_binary_ones() {
    assert_eq!(parse_bytes("1G"), 1_000_000_000);
    assert_eq!(parse_bytes("1k"), 1000);
    assert_ne!(parse_bytes("1G"), parse_bytes("1Gi"));
}

#[test]
fn fractions_and_exponents() {
    assert_eq!(parse_bytes("1.5Gi"), 1_610_612_736);
    assert_eq!(parse_bytes("1e9"), 1_000_000_000);
    assert_eq!(parse_bytes("500"), 500);
}

#[test]
fn nonsense_is_zero_not_a_panic() {
    assert_eq!(parse_bytes(""), 0);
    assert_eq!(parse_bytes("plenty"), 0);
    assert_eq!(parse_bytes("-5Gi"), 0);
}

#[test]
fn cpu() {
    assert_eq!(parse_cpu_millis("100m"), 100);
    assert_eq!(parse_cpu_millis("1"), 1000);
    assert_eq!(parse_cpu_millis("0.5"), 500);
}

#[test]
fn round_trips_to_the_largest_exact_suffix() {
    assert_eq!(format_bytes(1 << 30), "1Gi");
    assert_eq!(format_bytes(5 * (1 << 20)), "5Mi");
    assert_eq!(format_bytes(1000), "1000");
    assert_eq!(parse_bytes(&format_bytes(3 * (1 << 30))), 3 * (1 << 30));
}

// Selectors

#[test]
fn empty_selector_matches_everything_null_matches_nothing() {
    assert!(selector::matches(&json("{}"), &json(r#"{"a": "b"}"#)));
    assert!(!selector::matches(&Json::Null, &json(r#"{"a": "b"}"#)));
}

#[test]
fn match_labels_all_must_agree() {
    let sel = json(r#"{"matchLabels": {"app": "web", "tier": "front"}}"#);
    assert!(selector::matches(&sel, &json(r#"{"app": "web", "tier": "front", "x": "y"}"#)));
    assert!(!selector::matches(&sel, &json(r#"{"app": "web"}"#)));
}

#[test]
fn match_expressions_are_honoured_not_ignored() {
    let sel = json(
        r#"{"matchExpressions": [{"key": "env", "operator": "In", "values": ["prod", "stage"]}]}"#,
    );
    assert!(selector::matches(&sel, &json(r#"{"env": "prod"}"#)));
    assert!(!selector::matches(&sel, &json(r#"{"env": "dev"}"#)));
    // No matchLabels does not mean "matches everything".
    assert!(!selector::matches(&sel, &json("{}")));
}

#[test]
fn exists_notin_and_doesnotexist() {
    let exists = json(r#"{"matchExpressions": [{"key": "k", "operator": "Exists"}]}"#);
    assert!(selector::matches(&exists, &json(r#"{"k": "anything"}"#)));
    assert!(!selector::matches(&exists, &json("{}")));

    let absent = json(r#"{"matchExpressions": [{"key": "k", "operator": "DoesNotExist"}]}"#);
    assert!(selector::matches(&absent, &json("{}")));
    assert!(!selector::matches(&absent, &json(r#"{"k": "v"}"#)));

    let notin =
        json(r#"{"matchExpressions": [{"key": "k", "operator": "NotIn", "values": ["a"]}]}"#);
    assert!(selector::matches(&notin, &json(r#"{"k": "b"}"#)));
    assert!(selector::matches(&notin, &json("{}")), "an absent key is not in the set");
    assert!(!selector::matches(&notin, &json(r#"{"k": "a"}"#)));
}

#[test]
fn an_unknown_operator_fails_closed() {
    let sel =
        json(r#"{"matchExpressions": [{"key": "k", "operator": "Iz", "values": ["a"]}]}"#);
    assert!(!selector::matches(&sel, &json(r#"{"k": "a"}"#)));
}

// Waiting for files

#[test]
fn half_written_pem_is_not_complete() {
    assert!(!is_complete_pem(b""));
    assert!(!is_complete_pem(b"-----BEGIN CERTIFICATE-----\nMIIB"));
    assert!(is_complete_pem(b"-----BEGIN CERTIFICATE-----\nMIIB\n-----END CERTIFICATE-----\n"));
    // A bundle: both blocks must have closed.
    assert!(!is_complete_pem(
        b"-----BEGIN CERTIFICATE-----\nA\n-----END CERTIFICATE-----\n-----BEGIN CERTIFICATE-----\nB\n"
    ));
}

const WHOLE: &[u8] = b"-----BEGIN CERTIFICATE-----\nAA\n-----END CERTIFICATE-----\n";

fn wait(read: FileRead, elapsed: u64, timeout: u64, waiting: bool, since: u64) -> WaitStep {
    pem_file(read, "test CA", "/ca.crt", elapsed, timeout, waiting, since)
}

#[test]
fn waits_for_a_file_that_arrives_late() {
    // Not there, then half written, then whole: two more reads, then the bytes.
    assert!(matches!(
        wait(FileRead::Missing, 0, 10_000, false, 0),
        WaitStep::Again(Report::Waiting, why) if why == "file does not exist yet"
    ));
    assert!(matches!(
        wait(FileRead::Contents(b"-----BEGIN".to_vec()), 250, 10_000, true, 250),
        WaitStep::Again(Report::Nothing, why) if why.contains("still being written")
    ));
    match wait(FileRead::Contents(WHOLE.to_vec()), 500, 10_000, true, 500) {
        WaitStep::Ready(bytes) => assert!(is_complete_pem(&bytes)),
        _ => panic!("should have waited for the late file"),
    }
}

#[test]
fn a_file_that_never_comes_times_out_with_the_reason() {
    match wait(FileRead::Missing, 300, 300, true, 0) {
        WaitStep::TimedOut(e) => {
            assert!(e.contains("does not exist yet"), "{e}");
            assert_eq!(
                e,
                "gave up after 0s waiting for test CA at /ca.crt: file does not exist yet"
            );
        }
        _ => panic!("should not have succeeded"),
    }
    match wait(FileRead::Contents(Vec::new()), 2000, 2000, true, 0) {
        WaitStep::TimedOut(e) => assert!(e.contains("after 2s") && e.ends_with("file is empty")),
        _ => panic!("an empty file is not ready"),
    }
}

#[test]
fn token_is_trimmed() {
    assert_eq!(trimmed(b"  abc.def  \n"), "abc.def");
    assert_eq!(trimmed(&[0xff, 0xfe]), "");
    let read = FileRead::Contents(b"  abc.def  \n".to_vec());
    match token_file(read, "test token", "/token", 0, 1000, false, 0) {
        WaitStep::Ready(bytes) => assert_eq!(trimmed(&bytes), "abc.def"),
        _ => panic!("a token is ready once it is there"),
    }
    let blank = FileRead::Contents(b" \n".to_vec());
    assert!(matches!(
        token_file(blank, "test token", "/token", 0, 1000, false, 0),
        WaitStep::Again(Report::Waiting, _)
    ));
}

#[test]
fn a_failure_that_does_not_mend_itself_is_not_waited_for() {
    match wait(FileRead::Failed("permission denied".to_string()), 0, 10_000, false, 0) {
        WaitStep::Failed(e) => assert_eq!(e, "test CA at /ca.crt: permission denied"),
        _ => panic!("should have failed at once"),
    }
}

#[test]
fn a_long_wait_says_so_every_ten_seconds() {
    assert!(matches!(
        wait(FileRead::Missing, 20_000, 120_000, true, 10_000),
        WaitStep::Again(Report::StillWaiting, _)
    ));
    assert!(matches!(
        wait(FileRead::Missing, 20_000, 120_000, true, 9_999),
        WaitStep::Again(Report::Nothing, _)
    ));
}

// Taints

fn taint(key: &str, effect: &str) -> Json {
    Json::object().with("key", Json::text(key)).with("effect", Json::text(effect))
}

#[test]
fn an_empty_effect_tolerates_every_effect() {
    let tol = json(r#"{"key": "k", "operator": "Exists"}"#);
    assert!(toleration_matches(&tol, &taint("k", "NoSchedule")).is_some());
    assert!(toleration_matches(&tol, &taint("k", "NoExecute")).is_some());
}

#[test]
fn exists_with_no_key_tolerates_everything() {
    let tol = json(r#"{"operator": "Exists"}"#);
    assert!(toleration_matches(&tol, &taint("anything", "NoExecute")).is_some());
    assert!(toleration_matches(&tol, &taint("other", "NoSchedule")).is_some());
}

#[test]
fn equal_matches_key_and_value_only() {
    let tol = json(r#"{"key": "dedicated", "value": "gpu", "effect": "NoSchedule"}"#);
    let good = json(r#"{"key":"dedicated","value":"gpu","effect":"NoSchedule"}"#);
    assert!(toleration_matches(&tol, &good).is_some());
    // Wrong value.
    let value = json(r#"{"key":"dedicated","value":"cpu","effect":"NoSchedule"}"#);
    assert!(toleration_matches(&tol, &value).is_none());
    // Wrong effect.
    let effect = json(r#"{"key":"dedicated","value":"gpu","effect":"NoExecute"}"#);
    assert!(toleration_matches(&tol, &effect).is_none());
}

#[test]
fn an_unknown_operator_does_not_tolerate() {
    let tol = json(r#"{"key": "k", "operator": "Nonsense"}"#);
    assert!(toleration_matches(&tol, &taint("k", "NoSchedule")).is_none());
}

#[test]
fn the_longest_toleration_wins() {
    let pod = json(
        r#"{"spec": {"tolerations": [
            {"key": "k", "operator": "Exists", "tolerationSeconds": 10},
            {"key": "k", "operator": "Exists", "tolerationSeconds": 300}
        ]}}"#,
    );
    assert_eq!(pod_tolerates(&pod, &taint("k", "NoExecute")), Some(Some(300)));

    // And "forever" beats any finite window, in either order.
    let pod = json(
        r#"{"spec": {"tolerations": [
            {"key": "k", "operator": "Exists", "tolerationSeconds": 10},
            {"key": "k", "operator": "Exists"}
        ]}}"#,
    );
    assert_eq!(pod_tolerates(&pod, &taint("k", "NoExecute")), Some(None));
}

#[test]
fn only_no_execute_evicts() {
    let pod = json(r#"{"spec": {}}"#);
    assert_eq!(verdict_for(&pod, &[taint("k", "NoSchedule")], |_| 0), Verdict::Stay);
    assert_eq!(verdict_for(&pod, &[taint("k", "PreferNoSchedule")], |_| 0), Verdict::Stay);
    assert_eq!(
        verdict_for(&pod, &[taint("k", "NoExecute")], |_| 0),
        Verdict::Evict("k".into())
    );
}

#[test]
fn toleration_seconds_delays_the_eviction() {
    let pod = json(
        r#"{"spec": {"tolerations": [
            {"key": "node.kubernetes.io/not-ready", "operator": "Exists",
             "effect": "NoExecute", "tolerationSeconds": 300}
        ]}}"#,
    );
    let t = taint("node.kubernetes.io/not-ready", "NoExecute");

    // Just applied: nearly the whole window remains.
    assert_eq!(
        verdict_for(&pod, std::slice::from_ref(&t), |_| 10),
        Verdict::EvictIn(290, "node.kubernetes.io/not-ready".into())
    );
    // Window elapsed: go.
    assert_eq!(
        verdict_for(&pod, std::slice::from_ref(&t), |_| 300),
        Verdict::Evict("node.kubernetes.io/not-ready".into())
    );
}

#[test]
fn tolerating_everything_means_staying() {
    let pod = json(r#"{"spec": {"tolerations": [{"operator": "Exists"}]}}"#);
    let taints = [taint("a", "NoExecute"), taint("b", "NoExecute")];
    assert_eq!(verdict_for(&pod, &taints, |_| 9999), Verdict::Stay);
}

#[test]
fn the_soonest_deadline_wins() {
    let pod = json(
        r#"{"spec": {"tolerations": [
            {"key": "a", "operator": "Exists", "tolerationSeconds": 300},
            {"key": "b", "operator": "Exists", "tolerationSeconds": 30}
        ]}}"#,
    );
    let taints = [taint("a", "NoExecute"), taint("b", "NoExecute")];
    assert_eq!(verdict_for(&pod, &taints, |_| 0), Verdict::EvictIn(30, "b".into()));
}

fn taint_count(node: &Json) -> usize {
    node.at("spec").at("taints").as_array().unwrap().len()
}

#[test]
fn taints_are_added_once_and_can_be_removed() {
    let mut node = json(r#"{"spec": {}}"#);
    assert!(add_taint(&mut node, "k", "NoSchedule", "now"));
    // Idempotent.
    assert!(!add_taint(&mut node, "k", "NoSchedule", "now"));
    assert_eq!(taint_count(&node), 1);

    // A different effect on the same key is a different taint.
    assert!(add_taint(&mut node, "k", "NoExecute", "now"));
    assert_eq!(taint_count(&node), 2);

    assert!(remove_taint(&mut node, "k", "NoSchedule"));
    assert_eq!(taint_count(&node), 1);
    // Removing what is not there changes nothing.
    assert!(!remove_taint(&mut node, "k", "NoSchedule"));
    let mut bare = json(r#"{"spec": {}}"#);
    assert!(!remove_taint(&mut bare, "k", "NoSchedule"));
    assert!(bare.equals(&json(r#"{"spec": {}}"#)));
}

// Revisions and events

#[test]
fn a_revision_is_its_number() {
    assert_eq!(revision_to_resource_version(42), "42");
    assert_eq!(resource_version_to_revision("42"), Some(42));
    assert_eq!(resource_version_to_revision(""), None);
    assert_eq!(resource_version_to_revision("x"), None);
    assert_eq!(resource_version_to_revision("18446744073709551616"), None);
}

#[test]
fn every_event_has_a_revision() {
    let key = || "/registry/pods/default/a".to_string();
    assert_eq!(WatchEvent::Added { key: key(), value: vec![1], revision: 3 }.revision(), 3);
    assert_eq!(WatchEvent::Modified { key: key(), value: vec![1], revision: 4 }.revision(), 4);
    let gone = WatchEvent::Deleted { key: key(), revision: 5, prev_value: None };
    assert_eq!(gone.clone().revision(), 5);
    assert_eq!(WatchEvent::Bookmark { revision: 6 }.revision(), 6);
}

#[test]
fn a_decision_says_why_it_denies() {
    let req = AuthorizationRequest {
        user: "alice".to_string(),
        groups: vec!["dev".to_string()],
        verb: "get".to_string(),
        resource: "pods".to_string(),
        api_group: String::new(),
        namespace: Some("default".to_string()),
        name: None,
    };
    assert_eq!(req.user, "alice");
    assert_ne!(
        AuthorizationDecision::Allowed,
        AuthorizationDecision::Denied { reason: "no role".to_string() }
    );
}
