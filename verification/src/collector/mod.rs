//! What the collector measures: applications, their processes and the
//! snapshots that hold them.
use std::collections::HashMap;

use vstd::prelude::*;

pub mod grouping;
pub mod network;
pub mod process;

pub use network::{NetworkCollector, NetworkCounters, NetworkRates, ProcessNetworkRow};
pub use process::{ProcessCollector, app_root_path, positive_delta};

verus! {

/// A process id.
pub type Pid = i32;

/// A measured rate or share, held as the bit pattern of an IEEE 754 binary64
/// number. The library moves these values and sets them to zero; it does no
/// arithmetic on them.
#[derive(Clone, Copy, Debug, PartialEq, Eq, Structural)]
pub struct Measure {
    pub bits: u64,
}

impl Measure {
    /// Positive zero, whose bit pattern is all zeros.
    pub fn zero() -> (out: Measure)
        ensures
            out.bits == 0,
    {
        Measure { bits: 0 }
    }
}

/// The application a process is counted under.
#[derive(Clone, Debug)]
pub struct ApplicationIdentity {
    pub id: String,
    pub name: String,
    pub bundle_path: Option<String>,
}

/// An application identity as text.
pub struct IdentityView {
    pub id: Seq<char>,
    pub name: Seq<char>,
    pub bundle_path: Option<Seq<char>>,
}

/// The text of an optional string.
pub open spec fn option_view(o: Option<String>) -> Option<Seq<char>> {
    match o {
        Some(s) => Some(s@),
        None => None,
    }
}

impl View for ApplicationIdentity {
    type V = IdentityView;

    open spec fn view(&self) -> IdentityView {
        IdentityView { id: self.id@, name: self.name@, bundle_path: option_view(self.bundle_path) }
    }
}

/// A copy of an optional string.
pub fn copy_option_string(o: &Option<String>) -> (out: Option<String>)
    ensures
        out == *o,
{
    match o {
        Some(s) => Some(s.clone()),
        None => None,
    }
}

impl ApplicationIdentity {
    /// A copy of this identity.
    pub fn duplicate(&self) -> (out: ApplicationIdentity)
        ensures
            out@ == self@,
    {
        ApplicationIdentity {
            id: self.id.clone(),
            name: self.name.clone(),
            bundle_path: copy_option_string(&self.bundle_path),
        }
    }
}

/// One process in one snapshot.
#[derive(Debug)]
pub struct ProcessSample {
    pub pid: Pid,
    pub name: String,
    pub cpu_percent: Measure,
    pub memory_bytes: u64,
    pub disk_read_bytes_per_second: Measure,
    pub disk_write_bytes_per_second: Measure,
    pub network_download_bytes_per_second: Measure,
    pub network_upload_bytes_per_second: Measure,
}

/// A process sample with its name as text.
pub struct ProcessView {
    pub pid: Pid,
    pub name: Seq<char>,
    pub cpu_percent: Measure,
    pub memory_bytes: u64,
    pub disk_read_bytes_per_second: Measure,
    pub disk_write_bytes_per_second: Measure,
    pub network_download_bytes_per_second: Measure,
    pub network_upload_bytes_per_second: Measure,
}

impl View for ProcessSample {
    type V = ProcessView;

    open spec fn view(&self) -> ProcessView {
        ProcessView {
            pid: self.pid,
            name: self.name@,
            cpu_percent: self.cpu_percent,
            memory_bytes: self.memory_bytes,
            disk_read_bytes_per_second: self.disk_read_bytes_per_second,
            disk_write_bytes_per_second: self.disk_write_bytes_per_second,
            network_download_bytes_per_second: self.network_download_bytes_per_second,
            network_upload_bytes_per_second: self.network_upload_bytes_per_second,
        }
    }
}

impl ProcessSample {
    /// A copy of this sample.
    pub fn duplicate(&self) -> (out: ProcessSample)
        ensures
            out@ == self@,
    {
        ProcessSample {
            pid: self.pid,
            name: self.name.clone(),
            cpu_percent: self.cpu_percent,
            memory_bytes: self.memory_bytes,
            disk_read_bytes_per_second: self.disk_read_bytes_per_second,
            disk_write_bytes_per_second: self.disk_write_bytes_per_second,
            network_download_bytes_per_second: self.network_download_bytes_per_second,
            network_upload_bytes_per_second: self.network_upload_bytes_per_second,
        }
    }
}

/// One application, with its processes, in one snapshot.
#[derive(Debug)]
pub struct ApplicationSample {
    pub identity: ApplicationIdentity,
    pub processes: Vec<ProcessSample>,
    pub cpu_percent: Measure,
    pub memory_bytes: u64,
    pub disk_read_bytes_per_second: Measure,
    pub disk_write_bytes_per_second: Measure,
    pub network_download_bytes_per_second: Measure,
    pub network_upload_bytes_per_second: Measure,
}

/// An application sample as values.
pub struct ApplicationView {
    pub identity: IdentityView,
    pub processes: Seq<ProcessView>,
    pub cpu_percent: Measure,
    pub memory_bytes: u64,
    pub disk_read_bytes_per_second: Measure,
    pub disk_write_bytes_per_second: Measure,
    pub network_download_bytes_per_second: Measure,
    pub network_upload_bytes_per_second: Measure,
}

/// The views of a sequence of process samples.
pub open spec fn process_views(s: Seq<ProcessSample>) -> Seq<ProcessView> {
    s.map_values(|p: ProcessSample| p@)
}

impl View for ApplicationSample {
    type V = ApplicationView;

    open spec fn view(&self) -> ApplicationView {
        ApplicationView {
            identity: self.identity@,
            processes: process_views(self.processes@),
            cpu_percent: self.cpu_percent,
            memory_bytes: self.memory_bytes,
            disk_read_bytes_per_second: self.disk_read_bytes_per_second,
            disk_write_bytes_per_second: self.disk_write_bytes_per_second,
            network_download_bytes_per_second: self.network_download_bytes_per_second,
            network_upload_bytes_per_second: self.network_upload_bytes_per_second,
        }
    }
}

/// A copy of a list of process samples.
pub fn duplicate_processes(v: &Vec<ProcessSample>) -> (out: Vec<ProcessSample>)
    ensures
        process_views(out@) == process_views(v@),
{
    let mut out: Vec<ProcessSample> = Vec::new();
    let mut i: usize = 0;
    while i < v.len()
        invariant
            i <= v@.len(),
            process_views(out@) == process_views(v@.take(i as int)),
        decreases v@.len() - i,
    {
        let p = v[i].duplicate();
        let ghost before = out@;
        out.push(p);
        assert(process_views(out@) =~= process_views(before).push(v@[i as int]@));
        assert(v@.take(i + 1) =~= v@.take(i as int).push(v@[i as int]));
        assert(process_views(v@.take(i + 1)) =~= process_views(v@.take(i as int)).push(
            v@[i as int]@,
        ));
        i = i + 1;
    }
    assert(v@.take(i as int) =~= v@);
    out
}

impl ApplicationSample {
    /// A copy of this sample.
    pub fn duplicate(&self) -> (out: ApplicationSample)
        ensures
            out@ == self@,
    {
        ApplicationSample {
            identity: self.identity.duplicate(),
            processes: duplicate_processes(&self.processes),
            cpu_percent: self.cpu_percent,
            memory_bytes: self.memory_bytes,
            disk_read_bytes_per_second: self.disk_read_bytes_per_second,
            disk_write_bytes_per_second: self.disk_write_bytes_per_second,
            network_download_bytes_per_second: self.network_download_bytes_per_second,
            network_upload_bytes_per_second: self.network_upload_bytes_per_second,
        }
    }
}

/// Every application at one moment.
#[derive(Debug)]
pub struct ProcessSnapshot {
    pub timestamp_unix_ms: i64,
    pub applications: Vec<ApplicationSample>,
}

/// A snapshot as values.
pub struct SnapshotView {
    pub timestamp_unix_ms: i64,
    pub applications: Seq<ApplicationView>,
}

/// The views of a sequence of application samples.
pub open spec fn application_views(s: Seq<ApplicationSample>) -> Seq<ApplicationView> {
    s.map_values(|a: ApplicationSample| a@)
}

impl View for ProcessSnapshot {
    type V = SnapshotView;

    open spec fn view(&self) -> SnapshotView {
        SnapshotView {
            timestamp_unix_ms: self.timestamp_unix_ms,
            applications: application_views(self.applications@),
        }
    }
}

/// The views of a sequence of snapshots.
pub open spec fn snapshot_views(s: Seq<ProcessSnapshot>) -> Seq<SnapshotView> {
    s.map_values(|x: ProcessSnapshot| x@)
}

/// An application without its process list.
pub open spec fn without_processes(a: ApplicationView) -> ApplicationView {
    ApplicationView {
        identity: a.identity,
        processes: Seq::empty(),
        cpu_percent: a.cpu_percent,
        memory_bytes: a.memory_bytes,
        disk_read_bytes_per_second: a.disk_read_bytes_per_second,
        disk_write_bytes_per_second: a.disk_write_bytes_per_second,
        network_download_bytes_per_second: a.network_download_bytes_per_second,
        network_upload_bytes_per_second: a.network_upload_bytes_per_second,
    }
}

/// A snapshot whose applications keep their totals and lose their process
/// lists: what the history keeps of a past moment.
pub open spec fn compacted(s: SnapshotView) -> SnapshotView {
    SnapshotView {
        timestamp_unix_ms: s.timestamp_unix_ms,
        applications: s.applications.map_values(|a: ApplicationView| without_processes(a)),
    }
}

/// The sum of the applications' memory.
pub open spec fn memory_total(apps: Seq<ApplicationView>) -> int
    decreases apps.len(),
{
    if apps.len() == 0 {
        0
    } else {
        memory_total(apps.drop_last()) + apps.last().memory_bytes
    }
}

impl ProcessSnapshot {
    /// A copy of this snapshot.
    pub fn duplicate(&self) -> (out: ProcessSnapshot)
        ensures
            out@ == self@,
    {
        let mut applications: Vec<ApplicationSample> = Vec::new();
        let mut i: usize = 0;
        while i < self.applications.len()
            invariant
                i <= self.applications@.len(),
                application_views(applications@) == application_views(
                    self.applications@.take(i as int),
                ),
            decreases self.applications@.len() - i,
        {
            let a = self.applications[i].duplicate();
            let ghost before = applications@;
            applications.push(a);
            assert(application_views(applications@) =~= application_views(before).push(
                self.applications@[i as int]@,
            ));
            assert(self.applications@.take(i + 1) =~= self.applications@.take(i as int).push(
                self.applications@[i as int],
            ));
            assert(application_views(self.applications@.take(i + 1)) =~= application_views(
                self.applications@.take(i as int),
            ).push(self.applications@[i as int]@));
            i = i + 1;
        }
        assert(self.applications@.take(i as int) =~= self.applications@);
        ProcessSnapshot { timestamp_unix_ms: self.timestamp_unix_ms, applications }
    }

    /// The memory of all applications together.
    pub fn total_memory_bytes(&self) -> (out: u64)
        requires
            memory_total(self@.applications) <= u64::MAX,
        ensures
            out == memory_total(self@.applications),
    {
        let mut total: u64 = 0;
        let mut i: usize = 0;
        while i < self.applications.len()
            invariant
                i <= self.applications@.len(),
                memory_total(self@.applications) <= u64::MAX,
                total == memory_total(self@.applications.take(i as int)),
            decreases self.applications@.len() - i,
        {
            proof {
                assert(self@.applications.take(i + 1).drop_last() =~= self@.applications.take(
                    i as int,
                ));
                lemma_memory_total_prefix(self@.applications, i + 1);
            }
            total = total + self.applications[i].memory_bytes;
            i = i + 1;
        }
        assert(self@.applications.take(i as int) =~= self@.applications);
        total
    }

    /// Sets every application's and every process's network rates from
    /// `rates`; an application or process that `rates` does not name gets
    /// zero.
    pub fn merge_network(&mut self, rates: &ApplicationNetworkRates)
        ensures
            final(self)@ == merged(old(self)@, rates.totals@, rates.by_pid@),
    {
        let ghost initial = self@;
        let mut i: usize = 0;
        while i < self.applications.len()
            invariant
                i <= self.applications@.len(),
                self@.timestamp_unix_ms == initial.timestamp_unix_ms,
                self@.applications.len() == initial.applications.len(),
                forall|k: int|
                    0 <= k < i ==> #[trigger] self.applications@[k]@ == merged_application(
                        initial.applications[k],
                        rates.totals@,
                        rates.by_pid@,
                    ),
                forall|k: int|
                    i <= k < self.applications@.len() ==> #[trigger] self.applications@[k]@
                        == initial.applications[k],
            decreases self.applications@.len() - i,
        {
            let app_rates = rates.rates_for_application(&self.applications[i].identity.id);
            let ghost before_i = self.applications@[i as int];
            assert(before_i@ == initial.applications[i as int]);
            self.applications[i].network_download_bytes_per_second =
            app_rates.download_bytes_per_second;
            self.applications[i].network_upload_bytes_per_second =
            app_rates.upload_bytes_per_second;
            assert(self.applications@[i as int].processes == before_i.processes);
            assert(self.applications@[i as int].identity == before_i.identity);
            let mut j: usize = 0;
            while j < self.applications[i].processes.len()
                invariant
                    i < self.applications@.len(),
                    j <= self.applications@[i as int].processes@.len(),
                    self@.timestamp_unix_ms == initial.timestamp_unix_ms,
                    self@.applications.len() == initial.applications.len(),
                    forall|k: int|
                        0 <= k < i ==> #[trigger] self.applications@[k]@ == merged_application(
                            initial.applications[k],
                            rates.totals@,
                            rates.by_pid@,
                        ),
                    forall|k: int|
                        i < k < self.applications@.len() ==> #[trigger] self.applications@[k]@
                            == initial.applications[k],
                    ({
                        let cur = self.applications@[i as int]@;
                        let orig = initial.applications[i as int];
                        let wanted = merged_application(orig, rates.totals@, rates.by_pid@);
                        &&& cur.identity == orig.identity
                        &&& cur.cpu_percent == orig.cpu_percent
                        &&& cur.memory_bytes == orig.memory_bytes
                        &&& cur.disk_read_bytes_per_second == orig.disk_read_bytes_per_second
                        &&& cur.disk_write_bytes_per_second == orig.disk_write_bytes_per_second
                        &&& cur.network_download_bytes_per_second
                            == wanted.network_download_bytes_per_second
                        &&& cur.network_upload_bytes_per_second
                            == wanted.network_upload_bytes_per_second
                        &&& cur.processes.len() == orig.processes.len()
                        &&& forall|p: int|
                            0 <= p < j ==> #[trigger] cur.processes[p] == wanted.processes[p]
                        &&& forall|p: int|
                            j <= p < cur.processes.len() ==> #[trigger] cur.processes[p]
                                == orig.processes[p]
                    }),
                decreases self.applications@[i as int].processes@.len() - j,
            {
                let pid = self.applications[i].processes[j].pid;
                let process_rates = rates.rates_for_pid(pid);
                let ghost app_before = self.applications@[i as int];
                let ghost proc_before = app_before.processes@[j as int];
                self.applications[i].processes[j].network_download_bytes_per_second =
                process_rates.download_bytes_per_second;
                self.applications[i].processes[j].network_upload_bytes_per_second =
                process_rates.upload_bytes_per_second;
                proof {
                    let app_after = self.applications@[i as int];
                    let orig = initial.applications[i as int];
                    let wanted = merged_application(orig, rates.totals@, rates.by_pid@);
                    assert(app_after.processes@ == app_before.processes@.update(
                        j as int,
                        app_after.processes@[j as int],
                    ));
                    assert(app_before@.processes[j as int] == orig.processes[j as int]);
                    assert(app_after.processes@[j as int]@ == merged_process(
                        proc_before@,
                        rates.by_pid@,
                    ));
                    assert(wanted.processes[j as int] == merged_process(
                        orig.processes[j as int],
                        rates.by_pid@,
                    ));
                    assert forall|p: int| 0 <= p < app_after@.processes.len() && p != j implies #[trigger] app_after@.processes[p] == app_before@.processes[p] by {
                        assert(app_after.processes@[p] == app_before.processes@[p]);
                    }
                }
                j = j + 1;
            }
            proof {
                let cur = self.applications@[i as int]@;
                let wanted = merged_application(
                    initial.applications[i as int],
                    rates.totals@,
                    rates.by_pid@,
                );
                assert(cur.processes =~= wanted.processes);
                assert(cur == wanted);
            }
            i = i + 1;
        }
        assert(self@.applications =~= merged(initial, rates.totals@, rates.by_pid@).applications);
    }
}

proof fn lemma_memory_total_prefix(apps: Seq<ApplicationView>, n: int)
    requires
        0 < n <= apps.len(),
    ensures
        memory_total(apps.take(n)) == memory_total(apps.take(n - 1)) + apps[n - 1].memory_bytes,
        memory_total(apps.take(n)) <= memory_total(apps),
    decreases apps.len() - n,
{
    assert(apps.take(n).drop_last() =~= apps.take(n - 1));
    if n < apps.len() {
        lemma_memory_total_prefix(apps, n + 1);
    } else {
        assert(apps.take(n) =~= apps);
    }
}

/// Network rates gathered for one sample: per application id and per process.
pub struct ApplicationNetworkRates {
    pub totals: Vec<(String, NetworkRates)>,
    pub by_pid: HashMap<Pid, NetworkRates>,
}

/// The rates that `totals` gives the application `id`: those of the first
/// entry for it, zero when there is none.
pub open spec fn rates_for_application_id(totals: Seq<(String, NetworkRates)>, id: Seq<char>) -> NetworkRates
    decreases totals.len(),
{
    if totals.len() == 0 {
        network::zero_rates()
    } else if totals[0].0@ == id {
        totals[0].1
    } else {
        rates_for_application_id(totals.drop_first(), id)
    }
}

/// The rates that `by_pid` gives the process `pid`, zero when it has none.
pub open spec fn rates_for_process(by_pid: Map<Pid, NetworkRates>, pid: Pid) -> NetworkRates {
    if by_pid.contains_key(pid) {
        by_pid[pid]
    } else {
        network::zero_rates()
    }
}

/// A process with the network rates that `by_pid` gives it.
pub open spec fn merged_process(p: ProcessView, by_pid: Map<Pid, NetworkRates>) -> ProcessView {
    let r = rates_for_process(by_pid, p.pid);
    ProcessView {
        network_download_bytes_per_second: r.download_bytes_per_second,
        network_upload_bytes_per_second: r.upload_bytes_per_second,
        ..p
    }
}

/// An application, and each of its processes, with the network rates that
/// the tables give them.
pub open spec fn merged_application(
    a: ApplicationView,
    totals: Seq<(String, NetworkRates)>,
    by_pid: Map<Pid, NetworkRates>,
) -> ApplicationView {
    let r = rates_for_application_id(totals, a.identity.id);
    ApplicationView {
        processes: a.processes.map_values(|p: ProcessView| merged_process(p, by_pid)),
        network_download_bytes_per_second: r.download_bytes_per_second,
        network_upload_bytes_per_second: r.upload_bytes_per_second,
        ..a
    }
}

/// A snapshot with the network rates that the tables give.
pub open spec fn merged(
    s: SnapshotView,
    totals: Seq<(String, NetworkRates)>,
    by_pid: Map<Pid, NetworkRates>,
) -> SnapshotView {
    SnapshotView {
        timestamp_unix_ms: s.timestamp_unix_ms,
        applications: s.applications.map_values(
            |a: ApplicationView| merged_application(a, totals, by_pid),
        ),
    }
}

/// Merging the same rates a second time changes nothing: a merge sets the
/// network rates from the tables alone, by application id and process id,
/// which a merge leaves as they were.
pub proof fn lemma_merge_network_idempotent(
    s: SnapshotView,
    totals: Seq<(String, NetworkRates)>,
    by_pid: Map<Pid, NetworkRates>,
)
    ensures
        merged(merged(s, totals, by_pid), totals, by_pid) == merged(s, totals, by_pid),
{
    let once = merged(s, totals, by_pid);
    let twice = merged(once, totals, by_pid);
    assert forall|i: int| 0 <= i < once.applications.len() implies #[trigger] twice.applications[i]
        == once.applications[i] by {
        let a = once.applications[i];
        assert(a.processes.map_values(|p: ProcessView| merged_process(p, by_pid)) =~= a.processes);
    }
    assert(twice.applications =~= once.applications);
}

proof fn lemma_application_rates_lookup(totals: Seq<(String, NetworkRates)>, id: Seq<char>)
    ensures
        forall|j: int|
            0 <= j < totals.len() && (#[trigger] totals[j]).0@ == id && (forall|k: int|
                0 <= k < j ==> totals[k].0@ != id) ==> rates_for_application_id(totals, id)
                == totals[j].1,
        (forall|j: int| 0 <= j < totals.len() ==> (#[trigger] totals[j]).0@ != id)
            ==> rates_for_application_id(totals, id) == network::zero_rates(),
    decreases totals.len(),
{
    if totals.len() > 0 {
        let rest = totals.drop_first();
        lemma_application_rates_lookup(rest, id);
        assert forall|j: int|
            0 <= j < totals.len() && (#[trigger] totals[j]).0@ == id && (forall|k: int|
                0 <= k < j ==> totals[k].0@ != id) implies rates_for_application_id(totals, id)
            == totals[j].1 by {
            if j > 0 {
                assert(totals[0].0@ != id);
                assert(rest[j - 1] == totals[j]);
                assert forall|k: int| 0 <= k < j - 1 implies rest[k].0@ != id by {
                    assert(rest[k] == totals[k + 1]);
                }
            }
        }
        if forall|j: int| 0 <= j < totals.len() ==> (#[trigger] totals[j]).0@ != id {
            assert forall|j: int| 0 <= j < rest.len() implies (#[trigger] rest[j]).0@ != id by {
                assert(rest[j] == totals[j + 1]);
            }
        }
    }
}

/// After merging, every application's download and upload rates are those
/// of the first entry for its id in `totals` (zero when there is none),
/// every process's are those `by_pid` gives its id (zero when it gives
/// none), and nothing else changes: the applications, their processes and
/// all their other measures stay as they were.
pub proof fn lemma_merge_network_takes_rates_from_tables(
    s: SnapshotView,
    totals: Seq<(String, NetworkRates)>,
    by_pid: Map<Pid, NetworkRates>,
)
    ensures
        merged(s, totals, by_pid).timestamp_unix_ms == s.timestamp_unix_ms,
        merged(s, totals, by_pid).applications.len() == s.applications.len(),
        forall|i: int|
            0 <= i < s.applications.len() ==> {
                let a = s.applications[i];
                let b = #[trigger] merged(s, totals, by_pid).applications[i];
                &&& b.identity == a.identity
                &&& b.cpu_percent == a.cpu_percent
                &&& b.memory_bytes == a.memory_bytes
                &&& b.disk_read_bytes_per_second == a.disk_read_bytes_per_second
                &&& b.disk_write_bytes_per_second == a.disk_write_bytes_per_second
                &&& forall|j: int|
                    0 <= j < totals.len() && (#[trigger] totals[j]).0@ == a.identity.id && (forall|
                        k: int,
                    |
                        0 <= k < j ==> totals[k].0@ != a.identity.id) ==> {
                        &&& b.network_download_bytes_per_second
                            == totals[j].1.download_bytes_per_second
                        &&& b.network_upload_bytes_per_second == totals[j].1.upload_bytes_per_second
                    }
                &&& (forall|j: int| 0 <= j < totals.len() ==> (#[trigger] totals[j]).0@ != a.identity.id)
                    ==> b.network_download_bytes_per_second.bits == 0
                    && b.network_upload_bytes_per_second.bits == 0
                &&& b.processes.len() == a.processes.len()
                &&& forall|p: int|
                    0 <= p < a.processes.len() ==> {
                        let o = a.processes[p];
                        let q = #[trigger] b.processes[p];
                        &&& q.pid == o.pid
                        &&& q.name == o.name
                        &&& q.cpu_percent == o.cpu_percent
                        &&& q.memory_bytes == o.memory_bytes
                        &&& q.disk_read_bytes_per_second == o.disk_read_bytes_per_second
                        &&& q.disk_write_bytes_per_second == o.disk_write_bytes_per_second
                        &&& by_pid.contains_key(o.pid) ==> {
                            &&& q.network_download_bytes_per_second
                                == by_pid[o.pid].download_bytes_per_second
                            &&& q.network_upload_bytes_per_second
                                == by_pid[o.pid].upload_bytes_per_second
                        }
                        &&& !by_pid.contains_key(o.pid) ==> q.network_download_bytes_per_second.bits
                            == 0 && q.network_upload_bytes_per_second.bits == 0
                    }
            },
{
    assert forall|i: int| 0 <= i < s.applications.len() implies {
        let a = s.applications[i];
        let b = #[trigger] merged(s, totals, by_pid).applications[i];
        &&& forall|j: int|
            0 <= j < totals.len() && (#[trigger] totals[j]).0@ == a.identity.id && (forall|k: int|
                0 <= k < j ==> totals[k].0@ != a.identity.id) ==> {
                &&& b.network_download_bytes_per_second == totals[j].1.download_bytes_per_second
                &&& b.network_upload_bytes_per_second == totals[j].1.upload_bytes_per_second
            }
        &&& (forall|j: int| 0 <= j < totals.len() ==> (#[trigger] totals[j]).0@ != a.identity.id)
            ==> b.network_download_bytes_per_second.bits == 0
            && b.network_upload_bytes_per_second.bits == 0
    } by {
        lemma_application_rates_lookup(totals, s.applications[i].identity.id);
    }
}

impl ApplicationNetworkRates {
    /// No rates at all.
    pub fn new() -> (out: ApplicationNetworkRates)
        ensures
            out.totals@.len() == 0,
            out.by_pid@ == Map::<Pid, NetworkRates>::empty(),
    {
        ApplicationNetworkRates { totals: Vec::new(), by_pid: HashMap::new() }
    }

    /// The rates of application `id`, zero when there are none.
    pub fn rates_for_application(&self, id: &String) -> (out: NetworkRates)
        ensures
            out == rates_for_application_id(self.totals@, id@),
    {
        let mut i: usize = 0;
        assert(self.totals@.skip(0) =~= self.totals@);
        while i < self.totals.len()
            invariant
                i <= self.totals@.len(),
                rates_for_application_id(self.totals@, id@) == rates_for_application_id(
                    self.totals@.skip(i as int),
                    id@,
                ),
            decreases self.totals@.len() - i,
        {
            proof {
                assert(self.totals@.skip(i as int).drop_first() =~= self.totals@.skip(i + 1));
            }
            if self.totals[i].0 == *id {
                return self.totals[i].1;
            }
            i = i + 1;
        }
        network::NetworkRates::zero()
    }

    /// The rates of process `pid`, zero when there are none.
    pub fn rates_for_pid(&self, pid: Pid) -> (out: NetworkRates)
        ensures
            out == rates_for_process(self.by_pid@, pid),
    {
        broadcast use vstd::std_specs::hash::group_hash_axioms;
        match self.by_pid.get(&pid) {
            Some(r) => *r,
            None => network::NetworkRates::zero(),
        }
    }
}

/// Removes the process lists of every application: the history keeps only
/// application totals.
pub fn compact(snapshot: &mut ProcessSnapshot)
    ensures
        final(snapshot)@ == compacted(old(snapshot)@),
{
    let ghost initial = snapshot@;
    let mut i: usize = 0;
    while i < snapshot.applications.len()
        invariant
            i <= snapshot.applications@.len(),
            snapshot@.timestamp_unix_ms == initial.timestamp_unix_ms,
            snapshot@.applications.len() == initial.applications.len(),
            forall|k: int|
                0 <= k < i ==> #[trigger] snapshot.applications@[k]@ == without_processes(
                    initial.applications[k],
                ),
            forall|k: int|
                i <= k < snapshot@.applications.len() ==> #[trigger] snapshot.applications@[k]@
                    == initial.applications[k],
        decreases snapshot.applications@.len() - i,
    {
        let ghost before_i = snapshot.applications@[i as int];
        assert(before_i@ == initial.applications[i as int]);
        snapshot.applications[i].processes.clear();
        proof {
            let after_i = snapshot.applications@[i as int];
            assert(after_i.identity == before_i.identity);
            assert(after_i@.processes =~= Seq::<ProcessView>::empty());
            assert(after_i@ == without_processes(initial.applications[i as int]));
        }
        i = i + 1;
    }
    assert(snapshot@.applications =~= compacted(initial).applications);
}

} // verus!
