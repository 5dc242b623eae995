//! What the collector service does with a fresh snapshot before it is kept
//! and sent: metrics that the configuration turns off are recorded as zero.
use vstd::prelude::*;

use crate::collector::{ApplicationView, Measure, ProcessSnapshot, ProcessView, SnapshotView};
use crate::config::MetricsConfig;

verus! {

/// A measure, or zero when its metric is off.
pub open spec fn kept(on: bool, m: Measure) -> Measure {
    if on {
        m
    } else {
        Measure { bits: 0 }
    }
}

/// A process with the metrics that are off set to zero.
pub open spec fn selected_process(p: ProcessView, metrics: MetricsConfig) -> ProcessView {
    ProcessView {
        cpu_percent: kept(metrics.cpu, p.cpu_percent),
        memory_bytes: if metrics.memory {
            p.memory_bytes
        } else {
            0
        },
        disk_read_bytes_per_second: kept(metrics.disk, p.disk_read_bytes_per_second),
        disk_write_bytes_per_second: kept(metrics.disk, p.disk_write_bytes_per_second),
        network_download_bytes_per_second: kept(
            metrics.network,
            p.network_download_bytes_per_second,
        ),
        network_upload_bytes_per_second: kept(metrics.network, p.network_upload_bytes_per_second),
        ..p
    }
}

/// An application, and each of its processes, with the metrics that are off
/// set to zero.
pub open spec fn selected_application(a: ApplicationView, metrics: MetricsConfig) -> ApplicationView {
    ApplicationView {
        processes: a.processes.map_values(|p: ProcessView| selected_process(p, metrics)),
        cpu_percent: kept(metrics.cpu, a.cpu_percent),
        memory_bytes: if metrics.memory {
            a.memory_bytes
        } else {
            0
        },
        disk_read_bytes_per_second: kept(metrics.disk, a.disk_read_bytes_per_second),
        disk_write_bytes_per_second: kept(metrics.disk, a.disk_write_bytes_per_second),
        network_download_bytes_per_second: kept(
            metrics.network,
            a.network_download_bytes_per_second,
        ),
        network_upload_bytes_per_second: kept(metrics.network, a.network_upload_bytes_per_second),
        ..a
    }
}

/// A snapshot with the metrics that are off set to zero.
pub open spec fn selected_snapshot(s: SnapshotView, metrics: MetricsConfig) -> SnapshotView {
    SnapshotView {
        timestamp_unix_ms: s.timestamp_unix_ms,
        applications: s.applications.map_values(
            |a: ApplicationView| selected_application(a, metrics),
        ),
    }
}

/// Sets to zero, in every application and process, each metric that
/// `metrics` turns off.
pub fn apply_metric_selection(snapshot: &mut ProcessSnapshot, metrics: &MetricsConfig)
    ensures
        final(snapshot)@ == selected_snapshot(old(snapshot)@, *metrics),
{
    let ghost initial = snapshot@;
    let mut i: usize = 0;
    while i < snapshot.applications.len()
        invariant
            i <= snapshot.applications@.len(),
            snapshot@.timestamp_unix_ms == initial.timestamp_unix_ms,
            snapshot.applications@.len() == initial.applications.len(),
            forall|k: int|
                0 <= k < i ==> #[trigger] snapshot.applications@[k]@ == selected_application(
                    initial.applications[k],
                    *metrics,
                ),
            forall|k: int|
                i <= k < snapshot.applications@.len() ==> #[trigger] snapshot.applications@[k]@
                    == initial.applications[k],
        decreases snapshot.applications@.len() - i,
    {
        let ghost before_i = snapshot.applications@[i as int];
        assert(before_i@ == initial.applications[i as int]);
        if !metrics.cpu {
            snapshot.applications[i].cpu_percent = Measure::zero();
        }
        if !metrics.memory {
            snapshot.applications[i].memory_bytes = 0;
        }
        if !metrics.disk {
            snapshot.applications[i].disk_read_bytes_per_second = Measure::zero();
            snapshot.applications[i].disk_write_bytes_per_second = Measure::zero();
        }
        if !metrics.network {
            snapshot.applications[i].network_download_bytes_per_second = Measure::zero();
            snapshot.applications[i].network_upload_bytes_per_second = Measure::zero();
        }
        assert(snapshot.applications@[i as int].processes == before_i.processes);
        assert(snapshot.applications@[i as int].identity == before_i.identity);
        let mut j: usize = 0;
        while j < snapshot.applications[i].processes.len()
            invariant
                i < snapshot.applications@.len(),
                j <= snapshot.applications@[i as int].processes@.len(),
                snapshot@.timestamp_unix_ms == initial.timestamp_unix_ms,
                snapshot.applications@.len() == initial.applications.len(),
                forall|k: int|
                    0 <= k < i ==> #[trigger] snapshot.applications@[k]@ == selected_application(
                        initial.applications[k],
                        *metrics,
                    ),
                forall|k: int|
                    i < k < snapshot.applications@.len() ==> #[trigger] snapshot.applications@[k]@
                        == initial.applications[k],
                ({
                    let cur = snapshot.applications@[i as int]@;
                    let orig = initial.applications[i as int];
                    let wanted = selected_application(orig, *metrics);
                    &&& cur.identity == orig.identity
                    &&& cur.cpu_percent == wanted.cpu_percent
                    &&& cur.memory_bytes == wanted.memory_bytes
                    &&& cur.disk_read_bytes_per_second == wanted.disk_read_bytes_per_second
                    &&& cur.disk_write_bytes_per_second == wanted.disk_write_bytes_per_second
                    &&& cur.network_download_bytes_per_second
                        == wanted.network_download_bytes_per_second
                    &&& cur.network_upload_bytes_per_second
                        == wanted.network_upload_bytes_per_second
                    &&& cur.processes.len() == orig.processes.len()
                    &&& forall|p: int|
                        0 <= p < j ==> #[trigger] cur.processes[p] == wanted.processes[p]
                    &&& forall|p: int|
                        j <= p < cur.processes.len() ==> #[trigger] cur.processes[p]
                            == orig.processes[p]
                }),
            decreases snapshot.applications@[i as int].processes@.len() - j,
        {
            let ghost app_before = snapshot.applications@[i as int];
            let ghost proc_before = app_before.processes@[j as int];
            if !metrics.cpu {
                snapshot.applications[i].processes[j].cpu_percent = Measure::zero();
            }
            if !metrics.memory {
                snapshot.applications[i].processes[j].memory_bytes = 0;
            }
            if !metrics.disk {
                snapshot.applications[i].processes[j].disk_read_bytes_per_second = Measure::zero();
                snapshot.applications[i].processes[j].disk_write_bytes_per_second = Measure::zero();
            }
            if !metrics.network {
                snapshot.applications[i].processes[j].network_download_bytes_per_second =
                Measure::zero();
                snapshot.applications[i].processes[j].network_upload_bytes_per_second =
                Measure::zero();
            }
            proof {
                let app_after = snapshot.applications@[i as int];
                let orig = initial.applications[i as int];
                let wanted = selected_application(orig, *metrics);
                assert(app_after.processes@.len() == app_before.processes@.len());
                assert(app_before@.processes[j as int] == orig.processes[j as int]);
                assert(app_after.processes@[j as int]@ == selected_process(proc_before@, *metrics));
                assert(wanted.processes[j as int] == selected_process(
                    orig.processes[j as int],
                    *metrics,
                ));
                assert forall|p: int|
                    0 <= p < app_after@.processes.len() && p != j implies #[trigger] app_after@.processes[p]
                    == app_before@.processes[p] by {
                    assert(app_after.processes@[p] == app_before.processes@[p]);
                }
            }
            j = j + 1;
        }
        proof {
            let cur = snapshot.applications@[i as int]@;
            let wanted = selected_application(initial.applications[i as int], *metrics);
            assert(cur.processes =~= wanted.processes);
            assert(cur == wanted);
        }
        i = i + 1;
    }
    assert(snapshot@.applications =~= selected_snapshot(initial, *metrics).applications);
}

} // verus!

verus! {

/// Turning metrics off twice is turning them off once.
pub proof fn lemma_metric_selection_idempotent(s: SnapshotView, metrics: MetricsConfig)
    ensures
        selected_snapshot(selected_snapshot(s, metrics), metrics) == selected_snapshot(s, metrics),
{
    let once = selected_snapshot(s, metrics);
    let twice = selected_snapshot(once, metrics);
    assert forall|i: int| 0 <= i < s.applications.len() implies #[trigger] twice.applications[i]
        == once.applications[i] by {
        let a = once.applications[i];
        assert(selected_application(a, metrics).processes =~= a.processes);
    }
    assert(twice.applications =~= once.applications);
}

/// With every metric on, a snapshot is left as it is.
pub proof fn lemma_all_metrics_keep_snapshot(s: SnapshotView, metrics: MetricsConfig)
    requires
        metrics.cpu && metrics.memory && metrics.disk && metrics.network,
    ensures
        selected_snapshot(s, metrics) == s,
{
    assert forall|i: int| 0 <= i < s.applications.len() implies #[trigger] selected_snapshot(
        s,
        metrics,
    ).applications[i] == s.applications[i] by {
        let a = s.applications[i];
        assert(selected_application(a, metrics).processes =~= a.processes);
    }
    assert(selected_snapshot(s, metrics).applications =~= s.applications);
}

/// In every application and in every process of it, each metric that the
/// configuration turns off reads zero and each one it keeps is unchanged;
/// the applications, their processes, names, ids and the timestamp stay as
/// they were.
pub proof fn lemma_metric_selection_zeroes_what_is_off(s: SnapshotView, metrics: MetricsConfig)
    ensures
        selected_snapshot(s, metrics).timestamp_unix_ms == s.timestamp_unix_ms,
        selected_snapshot(s, metrics).applications.len() == s.applications.len(),
        forall|i: int|
            0 <= i < s.applications.len() ==> {
                let a = s.applications[i];
                let b = #[trigger] selected_snapshot(s, metrics).applications[i];
                &&& b.identity == a.identity
                &&& b.cpu_percent.bits == if metrics.cpu {
                    a.cpu_percent.bits
                } else {
                    0
                }
                &&& b.memory_bytes == if metrics.memory {
                    a.memory_bytes
                } else {
                    0
                }
                &&& b.disk_read_bytes_per_second.bits == if metrics.disk {
                    a.disk_read_bytes_per_second.bits
                } else {
                    0
                }
                &&& b.disk_write_bytes_per_second.bits == if metrics.disk {
                    a.disk_write_bytes_per_second.bits
                } else {
                    0
                }
                &&& b.network_download_bytes_per_second.bits == if metrics.network {
                    a.network_download_bytes_per_second.bits
                } else {
                    0
                }
                &&& b.network_upload_bytes_per_second.bits == if metrics.network {
                    a.network_upload_bytes_per_second.bits
                } else {
                    0
                }
                &&& b.processes.len() == a.processes.len()
                &&& forall|j: int|
                    0 <= j < a.processes.len() ==> {
                        let p = a.processes[j];
                        let q = #[trigger] b.processes[j];
                        &&& q.pid == p.pid
                        &&& q.name == p.name
                        &&& q.cpu_percent.bits == if metrics.cpu {
                            p.cpu_percent.bits
                        } else {
                            0
                        }
                        &&& q.memory_bytes == if metrics.memory {
                            p.memory_bytes
                        } else {
                            0
                        }
                        &&& q.disk_read_bytes_per_second.bits == if metrics.disk {
                            p.disk_read_bytes_per_second.bits
                        } else {
                            0
                        }
                        &&& q.disk_write_bytes_per_second.bits == if metrics.disk {
                            p.disk_write_bytes_per_second.bits
                        } else {
                            0
                        }
                        &&& q.network_download_bytes_per_second.bits == if metrics.network {
                            p.network_download_bytes_per_second.bits
                        } else {
                            0
                        }
                        &&& q.network_upload_bytes_per_second.bits == if metrics.network {
                            p.network_upload_bytes_per_second.bits
                        } else {
                            0
                        }
                    }
            },
{
}

} // verus!
