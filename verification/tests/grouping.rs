use kedu::collector::grouping::group_by_application;
use kedu::collector::process::{Counters, ProcessObservation, ProcessRecord};
use kedu::collector::{ApplicationIdentity, ProcessCollector};

fn identity(id: &str) -> ApplicationIdentity {
    ApplicationIdentity { id: id.into(), name: id.into(), bundle_path: None }
}

fn observation(pid: i32, application: &str, memory_bytes: u64) -> ProcessObservation {
    ProcessObservation {
        record: ProcessRecord {
            pid,
            parent_pid: 1,
            uid: 501,
            name: format!("pid-{pid}"),
            executable_path: None,
            counters: Counters {
                cpu_nanoseconds: 0,
                memory_bytes,
                disk_read_bytes: 0,
                disk_write_bytes: 0,
                process_start_abstime: 1,
            },
        },
        identity: identity(application),
        baseline: None,
    }
}

#[test]
fn processes_are_gathered_by_application_in_first_seen_order() {
    let observations = vec![
        observation(1, "process:a", 10),
        observation(2, "process:b", 5),
        observation(3, "process:a", 7),
        observation(4, "process:c", 0),
    ];
    let groups = group_by_application(&observations);
    assert_eq!(groups.len(), 3);
    assert_eq!(groups[0].identity.id, "process:a");
    assert_eq!(groups[0].members, vec![0, 2]);
    assert_eq!(groups[0].memory_bytes, 17);
    assert_eq!(groups[1].identity.id, "process:b");
    assert_eq!(groups[1].members, vec![1]);
    assert_eq!(groups[1].memory_bytes, 5);
    assert_eq!(groups[2].members, vec![3]);
}

#[test]
fn application_memory_stops_at_the_largest_u64() {
    let observations = vec![observation(1, "process:a", u64::MAX - 1), observation(2, "process:a", 5)];
    let groups = group_by_application(&observations);
    assert_eq!(groups.len(), 1);
    assert_eq!(groups[0].memory_bytes, u64::MAX);
}

#[test]
fn identities_differing_in_name_form_separate_groups() {
    let mut renamed = observation(2, "process:a", 1);
    renamed.identity.name = "other".into();
    let observations = vec![observation(1, "process:a", 1), renamed];
    let groups = group_by_application(&observations);
    assert_eq!(groups.len(), 2);
    assert_eq!(groups[1].identity.name, "other");
}

#[test]
fn an_empty_scan_has_no_applications() {
    assert!(group_by_application(&[]).is_empty());
}

#[test]
fn tables_of_a_scan_agree_with_its_applications() {
    let record = |pid: i32, parent: i32, path: Option<&str>| ProcessRecord {
        pid,
        parent_pid: parent,
        uid: 500 + pid as u32,
        name: format!("pid-{pid}"),
        executable_path: path.map(str::to_owned),
        counters: Counters {
            cpu_nanoseconds: 0,
            memory_bytes: 1,
            disk_read_bytes: 0,
            disk_write_bytes: 0,
            process_start_abstime: 1,
        },
    };
    let mut collector = ProcessCollector::new();
    let observations = collector.observe(vec![
        record(10, 1, Some("/Applications/Terminal.app/Contents/MacOS/Terminal")),
        record(11, 10, Some("/usr/bin/login")),
        record(12, 1, None),
    ]);
    let groups = group_by_application(&observations);
    assert_eq!(groups.len(), 2);
    for group in &groups {
        for &p in &group.members {
            let record = &observations[p].record;
            assert_eq!(collector.application_identities_by_pid()[&record.pid].id, group.identity.id);
            assert_eq!(collector.parent_pids()[&record.pid], record.parent_pid);
            assert_eq!(collector.process_uids()[&record.pid], record.uid);
        }
    }
    assert_eq!(groups[0].members, vec![0, 1]);
    assert_eq!(groups[0].identity.id, "app:/Applications/Terminal.app");
}
