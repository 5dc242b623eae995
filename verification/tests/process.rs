use std::collections::HashMap;

use kedu::collector::process::{
    app_root_path, decode_buffer, pid_label, positive_delta, resolved_app_root, Counters,
    ProcessCollector, ProcessRecord,
};

fn test_record(pid: i32, parent_pid: i32, executable_path: Option<&str>) -> ProcessRecord {
    ProcessRecord {
        pid,
        parent_pid,
        uid: 501,
        name: format!("pid-{pid}"),
        executable_path: executable_path.map(str::to_owned),
        counters: Counters {
            cpu_nanoseconds: 0,
            memory_bytes: 0,
            disk_read_bytes: 0,
            disk_write_bytes: 0,
            process_start_abstime: 1,
        },
    }
}

#[test]
fn extracts_outermost_application_bundle() {
    let helper = "/Applications/Google Chrome.app/Contents/Frameworks/Google Chrome Helper.app/Contents/MacOS/Google Chrome Helper";
    assert_eq!(
        app_root_path(helper).as_deref(),
        Some("/Applications/Google Chrome.app")
    );
    assert_eq!(app_root_path("/usr/libexec/WindowServer"), None);
}

#[test]
fn bundle_path_itself_is_its_own_root() {
    assert_eq!(app_root_path("/Applications/Safari.app").as_deref(), Some("/Applications/Safari.app"));
    assert_eq!(app_root_path(".app"), Some(".app".to_owned()));
    assert_eq!(app_root_path("/x/y.apps/z"), None);
    assert_eq!(app_root_path("/Ünï.app/x").as_deref(), Some("/Ünï.app"));
}

#[test]
fn nested_bundle_path_belongs_to_the_outer_bundle() {
    assert_eq!(
        app_root_path("/Applications/Outer.app/Contents/Helpers/Inner.app").as_deref(),
        Some("/Applications/Outer.app")
    );
}

#[test]
fn inherits_application_bundle_from_parent_process() {
    let parent = test_record(
        10,
        1,
        Some("/Applications/Terminal.app/Contents/MacOS/Terminal"),
    );
    let child = test_record(11, 10, Some("/usr/bin/login"));
    let records = HashMap::from([(parent.pid, &parent), (child.pid, &child)]);

    assert_eq!(
        resolved_app_root(&child, &records).as_deref(),
        Some("/Applications/Terminal.app")
    );
}

#[test]
fn parent_cycles_do_not_loop_forever() {
    let first = test_record(10, 11, None);
    let second = test_record(11, 10, None);
    let records = HashMap::from([(first.pid, &first), (second.pid, &second)]);

    assert_eq!(resolved_app_root(&first, &records), None);
}

#[test]
fn launchd_parent_stops_the_search() {
    let parent = test_record(1, 0, Some("/Applications/Finder.app/Contents/MacOS/Finder"));
    let child = test_record(20, 1, None);
    let records = HashMap::from([(parent.pid, &parent), (child.pid, &child)]);
    assert_eq!(resolved_app_root(&child, &records), None);
}

#[test]
fn counter_reset_does_not_underflow() {
    assert_eq!(positive_delta(4, 9), 0);
    assert_eq!(positive_delta(12, 9), 3);
}

#[test]
fn identities_use_bundle_stem_and_stay_stable() {
    let mut collector = ProcessCollector::new();
    let chrome = test_record(5, 1, Some("/Applications/Google Chrome.app/Contents/MacOS/Google Chrome"));
    let helper = test_record(6, 5, Some("/usr/libexec/helper"));
    let daemon = test_record(7, 1, None);
    let records = HashMap::from([(5, &chrome), (6, &helper), (7, &daemon)]);
    let first = collector.identity_for(&chrome, &records);
    assert_eq!(first.id, "app:/Applications/Google Chrome.app");
    assert_eq!(first.name, "Google Chrome");
    assert_eq!(first.bundle_path.as_deref(), Some("/Applications/Google Chrome.app"));
    let second = collector.identity_for(&helper, &records);
    assert_eq!(second.id, first.id);
    assert_eq!(second.name, first.name);
    let third = collector.identity_for(&daemon, &records);
    assert_eq!(third.id, "process:pid-7");
    assert_eq!(third.name, "pid-7");
    assert_eq!(third.bundle_path, None);
}

#[test]
fn reused_pid_starts_a_new_baseline() {
    let mut collector = ProcessCollector::new();
    let mut a = test_record(5, 1, None);
    a.counters.cpu_nanoseconds = 100;
    let b = test_record(6, 1, None);
    let first = collector.observe(vec![a, b]);
    assert!(first.iter().all(|o| o.baseline.is_none()));
    assert_eq!(collector.parent_pids(), &HashMap::from([(5, 1), (6, 1)]));
    assert_eq!(collector.process_uids(), &HashMap::from([(5, 501), (6, 501)]));
    assert_eq!(collector.identities_by_pid().len(), 2);

    let mut same = test_record(5, 1, None);
    same.counters.cpu_nanoseconds = 300;
    let mut reused = test_record(6, 1, None);
    reused.counters.process_start_abstime = 99;
    let second = collector.observe(vec![same, reused]);
    assert_eq!(second[0].baseline.map(|c| c.cpu_nanoseconds), Some(100));
    assert_eq!(second[1].baseline, None);
    assert_eq!(second[0].identity.id, "process:pid-5");
    assert_eq!(collector.application_identities_by_pid()[&6].id, "process:pid-6");
}

#[test]
fn decodes_c_string_buffers() {
    assert_eq!(decode_buffer(b"launchd\0\0\0", 8).as_deref(), Some("launchd"));
    assert_eq!(decode_buffer(b"abc", 10).as_deref(), Some("abc"));
    assert_eq!(decode_buffer(b"abc", 0), None);
    assert_eq!(decode_buffer(b"\0", 1), None);
    assert_eq!(decode_buffer(&[0xff, b'a'], 2).as_deref(), Some("\u{fffd}a"));
}

#[test]
fn names_unreadable_processes_by_pid() {
    assert_eq!(pid_label(42), "PID 42");
    assert_eq!(pid_label(-7), "PID -7");
    assert_eq!(pid_label(0), "PID 0");
}
