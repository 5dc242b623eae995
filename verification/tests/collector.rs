use std::collections::HashMap;

use kedu::collector::network::NetworkRates;
use kedu::collector::{
    compact, ApplicationIdentity, ApplicationNetworkRates, ApplicationSample, Measure, ProcessSample,
    ProcessSnapshot,
};
use kedu::config::MetricsConfig;
use kedu::daemon::apply_metric_selection;

fn m(value: f64) -> Measure {
    Measure { bits: value.to_bits() }
}

fn value(measure: Measure) -> f64 {
    f64::from_bits(measure.bits)
}

fn process(pid: i32, name: &str) -> ProcessSample {
    ProcessSample {
        pid,
        name: name.into(),
        cpu_percent: m(0.0),
        memory_bytes: 1,
        disk_read_bytes_per_second: m(0.0),
        disk_write_bytes_per_second: m(0.0),
        network_download_bytes_per_second: m(0.0),
        network_upload_bytes_per_second: m(0.0),
    }
}

#[test]
fn merges_network_rates_into_applications_and_processes() {
    let mut snapshot = ProcessSnapshot {
        timestamp_unix_ms: 1,
        applications: vec![ApplicationSample {
            identity: ApplicationIdentity {
                id: "app:/Applications/Test.app".into(),
                name: "Test".into(),
                bundle_path: Some("/Applications/Test.app".into()),
            },
            processes: vec![process(42, "Test")],
            cpu_percent: m(0.0),
            memory_bytes: 1,
            disk_read_bytes_per_second: m(0.0),
            disk_write_bytes_per_second: m(0.0),
            network_download_bytes_per_second: m(0.0),
            network_upload_bytes_per_second: m(0.0),
        }],
    };
    let rates = ApplicationNetworkRates {
        totals: vec![(
            "app:/Applications/Test.app".into(),
            NetworkRates {
                download_bytes_per_second: m(150.0),
                upload_bytes_per_second: m(25.0),
            },
        )],
        by_pid: HashMap::from([(
            42,
            NetworkRates {
                download_bytes_per_second: m(100.0),
                upload_bytes_per_second: m(10.0),
            },
        )]),
    };

    snapshot.merge_network(&rates);

    assert_eq!(
        value(snapshot.applications[0].network_download_bytes_per_second),
        150.0
    );
    assert_eq!(
        value(snapshot.applications[0].processes[0].network_upload_bytes_per_second),
        10.0
    );
}

fn app(id: &str, memory: u64, processes: Vec<ProcessSample>) -> ApplicationSample {
    ApplicationSample {
        identity: ApplicationIdentity { id: id.into(), name: id.into(), bundle_path: None },
        processes,
        cpu_percent: m(12.5),
        memory_bytes: memory,
        disk_read_bytes_per_second: m(3.0),
        disk_write_bytes_per_second: m(4.0),
        network_download_bytes_per_second: m(5.0),
        network_upload_bytes_per_second: m(6.0),
    }
}

#[test]
fn unknown_applications_and_processes_get_zero_rates() {
    let mut snapshot = ProcessSnapshot {
        timestamp_unix_ms: 7,
        applications: vec![app("process:a", 3, vec![process(1, "a")])],
    };
    snapshot.merge_network(&ApplicationNetworkRates::new());
    assert_eq!(snapshot.applications[0].network_download_bytes_per_second.bits, 0);
    assert_eq!(snapshot.applications[0].network_upload_bytes_per_second.bits, 0);
    assert_eq!(snapshot.applications[0].processes[0].network_download_bytes_per_second.bits, 0);
    assert_eq!(value(snapshot.applications[0].cpu_percent), 12.5);
}

#[test]
fn compacting_drops_process_lists_only() {
    let mut snapshot = ProcessSnapshot {
        timestamp_unix_ms: 9,
        applications: vec![app("a", 1, vec![process(1, "a")]), app("b", 2, vec![])],
    };
    compact(&mut snapshot);
    assert_eq!(snapshot.timestamp_unix_ms, 9);
    assert_eq!(snapshot.applications.len(), 2);
    assert!(snapshot.applications.iter().all(|a| a.processes.is_empty()));
    assert_eq!(snapshot.applications[1].memory_bytes, 2);
    assert_eq!(snapshot.total_memory_bytes(), 3);
}

#[test]
fn disabled_metrics_are_zero() {
    let mut snapshot = ProcessSnapshot {
        timestamp_unix_ms: 9,
        applications: vec![app("a", 10, vec![process(1, "a")])],
    };
    let metrics = MetricsConfig { cpu: false, memory: false, disk: true, network: false };
    apply_metric_selection(&mut snapshot, &metrics);
    let a = &snapshot.applications[0];
    assert_eq!(a.cpu_percent.bits, 0);
    assert_eq!(a.memory_bytes, 0);
    assert_eq!(value(a.disk_read_bytes_per_second), 3.0);
    assert_eq!(a.network_upload_bytes_per_second.bits, 0);
    assert_eq!(a.processes[0].memory_bytes, 0);

    apply_metric_selection(&mut snapshot, &metrics);
    assert_eq!(value(snapshot.applications[0].disk_write_bytes_per_second), 4.0);
}

#[test]
fn merging_the_same_rates_twice_changes_nothing_more() {
    let mut snapshot = ProcessSnapshot {
        timestamp_unix_ms: 3,
        applications: vec![app("a", 1, vec![process(1, "a"), process(2, "b")]), app("b", 2, vec![])],
    };
    let rates = ApplicationNetworkRates {
        totals: vec![(
            "a".into(),
            NetworkRates { download_bytes_per_second: m(8.0), upload_bytes_per_second: m(2.0) },
        )],
        by_pid: HashMap::from([(
            2,
            NetworkRates { download_bytes_per_second: m(7.0), upload_bytes_per_second: m(1.0) },
        )]),
    };
    snapshot.merge_network(&rates);
    let once = snapshot.duplicate();
    snapshot.merge_network(&rates);
    assert_eq!(format!("{:?}", snapshot), format!("{:?}", once));
    assert_eq!(value(snapshot.applications[0].processes[1].network_download_bytes_per_second), 7.0);
    assert_eq!(snapshot.applications[0].processes[0].network_download_bytes_per_second.bits, 0);
    assert_eq!(snapshot.applications[1].network_upload_bytes_per_second.bits, 0);
}
