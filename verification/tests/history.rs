use kedu::collector::{ApplicationIdentity, ApplicationSample, Measure, ProcessSample, ProcessSnapshot};
use kedu::config::TimeSpan;
use kedu::history::HistoryStore;

fn m(value: f64) -> Measure {
    Measure { bits: value.to_bits() }
}

fn snapshot(timestamp_unix_ms: i64) -> ProcessSnapshot {
    ProcessSnapshot {
        timestamp_unix_ms,
        applications: vec![ApplicationSample {
            identity: ApplicationIdentity {
                id: "test".into(),
                name: "Test".into(),
                bundle_path: None,
            },
            processes: vec![ProcessSample {
                pid: 42,
                name: "test".into(),
                cpu_percent: m(1.0),
                memory_bytes: 2,
                disk_read_bytes_per_second: m(3.0),
                disk_write_bytes_per_second: m(4.0),
                network_download_bytes_per_second: m(5.0),
                network_upload_bytes_per_second: m(6.0),
            }],
            cpu_percent: m(1.0),
            memory_bytes: 2,
            disk_read_bytes_per_second: m(3.0),
            disk_write_bytes_per_second: m(4.0),
            network_download_bytes_per_second: m(5.0),
            network_upload_bytes_per_second: m(6.0),
        }],
    }
}

#[test]
fn keeps_full_latest_and_compacts_history() {
    let mut store = HistoryStore::new(TimeSpan::from_secs(60), 10);
    store.append(snapshot(1_000));
    assert!(store.snapshots()[0].applications[0].processes.is_empty());
    assert_eq!(store.latest().unwrap().applications[0].processes.len(), 1);
}

#[test]
fn trims_by_count_and_time() {
    let mut store = HistoryStore::new(TimeSpan::from_secs(1), 2);
    store.append(snapshot(0));
    store.append(snapshot(1_000));
    store.append(snapshot(2_000));
    assert_eq!(store.snapshots().len(), 2);
    assert_eq!(store.snapshots()[0].timestamp_unix_ms, 1_000);
}

#[test]
fn never_keeps_fewer_than_two_and_drops_old_samples() {
    let mut store = HistoryStore::new(TimeSpan::from_secs(60), 0);
    assert!(store.latest().is_none());
    store.append(snapshot(0));
    store.append(snapshot(1_000));
    store.append(snapshot(2_000));
    let timestamps: Vec<i64> = store.snapshots().iter().map(|s| s.timestamp_unix_ms).collect();
    assert_eq!(timestamps, vec![1_000, 2_000]);

    let mut store = HistoryStore::new(TimeSpan::from_secs(5), 100);
    for t in [0, 1_000, 2_000, 10_000] {
        store.append(snapshot(t));
    }
    let timestamps: Vec<i64> = store.snapshots().iter().map(|s| s.timestamp_unix_ms).collect();
    assert_eq!(timestamps, vec![10_000]);
    assert_eq!(store.latest().unwrap().timestamp_unix_ms, 10_000);

    let mut store = HistoryStore::new(TimeSpan::from_secs(5), 100);
    for t in [10_000, 0, 11_000] {
        store.append(snapshot(t));
    }
    let timestamps: Vec<i64> = store.snapshots().iter().map(|s| s.timestamp_unix_ms).collect();
    assert_eq!(timestamps, vec![10_000, 0, 11_000]);
}

#[test]
fn history_is_the_longest_recent_run_within_both_bounds() {
    let mut store = HistoryStore::new(TimeSpan::from_secs(3), 3);
    for t in [0, 1_000, 2_000, 5_000, 6_000] {
        store.append(snapshot(t));
    }
    let timestamps: Vec<i64> = store.snapshots().iter().map(|s| s.timestamp_unix_ms).collect();
    assert_eq!(timestamps, vec![5_000, 6_000]);
    assert!(store.snapshots().iter().all(|s| s.applications[0].processes.is_empty()));
    assert_eq!(store.latest().unwrap().applications[0].processes.len(), 1);

    let mut store = HistoryStore::new(TimeSpan::from_secs(60), 3);
    for t in [0, 1_000, 2_000, 5_000, 6_000] {
        store.append(snapshot(t));
    }
    let timestamps: Vec<i64> = store.snapshots().iter().map(|s| s.timestamp_unix_ms).collect();
    assert_eq!(timestamps, vec![2_000, 5_000, 6_000]);
}
