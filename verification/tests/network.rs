use std::collections::HashMap;

use kedu::collector::network::{parse_frame, parse_process_row, NetworkCollector, NetworkCounters, ProcessNetworkRow};
use kedu::collector::ApplicationIdentity;

#[test]
fn parses_nettop_process_row() {
    let row = parse_process_row("Google Chrome H.34675,176921561,312224,").expect("valid nettop row");

    assert_eq!(row.pid, 34675);
    assert_eq!(
        row.counters,
        NetworkCounters {
            bytes_in: 176_921_561,
            bytes_out: 312_224,
        }
    );
}

#[test]
fn ignores_headers_and_malformed_rows() {
    assert_eq!(parse_process_row(",bytes_in,bytes_out,"), None);
    assert_eq!(parse_process_row("no-pid,1,2,"), None);
    assert_eq!(parse_process_row("name.42,not-a-number,2,"), None);
}

#[test]
fn rows_need_three_fields_and_accept_a_missing_trailing_comma() {
    assert_eq!(parse_process_row(""), None);
    assert_eq!(parse_process_row("name.42,1"), None);
    assert_eq!(
        parse_process_row("a.b.7,+5,6"),
        Some(ProcessNetworkRow { pid: 7, counters: NetworkCounters { bytes_in: 5, bytes_out: 6 } })
    );
    assert_eq!(parse_process_row("name.-3,1,2,"), Some(ProcessNetworkRow { pid: -3, counters: NetworkCounters { bytes_in: 1, bytes_out: 2 } }));
    assert_eq!(parse_process_row("name.99999999999,1,2,"), None);
    assert_eq!(parse_process_row("name.4,18446744073709551616,2,"), None);
    assert_eq!(
        parse_process_row("name.4,18446744073709551615,0,"),
        Some(ProcessNetworkRow { pid: 4, counters: NetworkCounters { bytes_in: u64::MAX, bytes_out: 0 } })
    );
}

#[test]
fn frame_keeps_the_last_row_of_each_process() {
    let frame = parse_frame(",bytes_in,bytes_out,\nA.1,10,20,\r\nB.2,5,6,\nA.1,30,40,\n");
    assert_eq!(frame.len(), 2);
    assert_eq!(frame[0], ProcessNetworkRow { pid: 1, counters: NetworkCounters { bytes_in: 30, bytes_out: 40 } });
    assert_eq!(frame[1], ProcessNetworkRow { pid: 2, counters: NetworkCounters { bytes_in: 5, bytes_out: 6 } });
}

fn identity(id: &str) -> ApplicationIdentity {
    ApplicationIdentity { id: id.to_owned(), name: id.to_owned(), bundle_path: None }
}

#[test]
fn first_frame_gives_no_deltas_and_later_frames_count_growth() {
    let mut collector = NetworkCollector::new();
    let ids = HashMap::from([(1, identity("app:one")), (2, identity("app:two"))]);
    let first = vec![
        ProcessNetworkRow { pid: 1, counters: NetworkCounters { bytes_in: 1_000, bytes_out: 400 } },
        ProcessNetworkRow { pid: 2, counters: NetworkCounters { bytes_in: 20, bytes_out: 20 } },
    ];
    assert!(collector.advance(first, 100, &ids).is_none());

    let second = vec![
        ProcessNetworkRow { pid: 1, counters: NetworkCounters { bytes_in: 4_000, bytes_out: 900 } },
        ProcessNetworkRow { pid: 2, counters: NetworkCounters { bytes_in: 10, bytes_out: 10 } },
        ProcessNetworkRow { pid: 3, counters: NetworkCounters { bytes_in: 7, bytes_out: 7 } },
    ];
    let frame = collector.advance(second, 2_000_000_100, &ids).expect("second frame");
    assert_eq!(frame.elapsed_nanos, 2_000_000_000);
    assert_eq!(frame.deltas.len(), 2);
    assert_eq!(frame.deltas[0].pid, 1);
    assert_eq!(frame.deltas[0].application_id, "app:one");
    assert_eq!(frame.deltas[0].bytes_in, 3_000);
    assert_eq!(frame.deltas[0].bytes_out, 500);
    assert_eq!(frame.deltas[1].pid, 2);
    assert_eq!(frame.deltas[1].bytes_in, 0);
    assert_eq!(frame.deltas[1].bytes_out, 0);

    assert!(collector.advance(Vec::new(), 2_000_000_100, &ids).is_none());
    collector.stop();
    assert!(collector.advance(Vec::new(), 3_000_000_000, &ids).is_none());
}
