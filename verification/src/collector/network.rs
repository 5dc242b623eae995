//! Per-process network counters as `nettop` reports them, and the byte
//! counts between two frames.
use std::collections::HashMap;

use vstd::prelude::*;

use super::{ApplicationIdentity, IdentityView, Measure, Pid};
use super::process::{identity_map_views, positive_delta};
use crate::text::{
    chars_of, first_field, first_field_chars, lines, lines_of, parse_i32, parse_i32_chars,
    parse_u64, parse_unsigned, rsplit_once, rsplit_once_chars, split_once, split_once_chars,
    views,
};

verus! {

/// Cumulative bytes a process has received and sent.
#[derive(Clone, Copy, Debug, Default, PartialEq, Eq, Structural)]
pub struct NetworkCounters {
    pub bytes_in: u64,
    pub bytes_out: u64,
}

/// Download and upload rates.
#[derive(Clone, Copy, Debug, PartialEq, Eq, Structural)]
pub struct NetworkRates {
    pub download_bytes_per_second: Measure,
    pub upload_bytes_per_second: Measure,
}

/// Both rates zero.
pub open spec fn zero_rates() -> NetworkRates {
    NetworkRates {
        download_bytes_per_second: Measure { bits: 0 },
        upload_bytes_per_second: Measure { bits: 0 },
    }
}

impl NetworkRates {
    /// Both rates zero.
    pub fn zero() -> (out: NetworkRates)
        ensures
            out == zero_rates(),
    {
        NetworkRates {
            download_bytes_per_second: Measure::zero(),
            upload_bytes_per_second: Measure::zero(),
        }
    }
}

/// One process row of `nettop` output.
#[derive(Clone, Copy, Debug, PartialEq, Eq, Structural)]
pub struct ProcessNetworkRow {
    pub pid: Pid,
    pub counters: NetworkCounters,
}

/// The number in a field, as `str::parse::<u64>` reads it.
pub open spec fn parse_u64_text(s: Seq<char>) -> Option<u64> {
    match parse_unsigned(s, u64::MAX as nat) {
        Some(v) => Some(v as u64),
        None => None,
    }
}

/// A `nettop -P -x -J bytes_in,bytes_out` row: `<name>.<pid>,<bytes in>,<bytes out>,`.
/// Empty rows and rows that start with a comma (the header) give nothing, as
/// does a row whose first field has no `.` followed by a process id or whose
/// next two fields are not byte counts.
pub open spec fn parse_row(line: Seq<char>) -> Option<ProcessNetworkRow> {
    if line.len() == 0 || line[0] == ',' {
        None
    } else {
        match split_once(line, ',') {
            None => None,
            Some((process, rest)) => match rsplit_once(process, '.') {
                None => None,
                Some((_, pid_text)) => match split_once(rest, ',') {
                    None => None,
                    Some((_, rest2)) => match (
                        parse_i32(pid_text),
                        parse_u64_text(first_field(rest, ',')),
                        parse_u64_text(first_field(rest2, ',')),
                    ) {
                        (Some(pid), Some(bytes_in), Some(bytes_out)) => Some(
                            ProcessNetworkRow {
                                pid,
                                counters: NetworkCounters { bytes_in, bytes_out },
                            },
                        ),
                        _ => None,
                    },
                },
            },
        }
    }
}

/// Reads one row of `nettop` output.
pub fn parse_process_row(line: &str) -> (out: Option<ProcessNetworkRow>)
    ensures
        out == parse_row(line@),
{
    let text = chars_of(line);
    parse_row_chars(&text)
}

fn parse_row_chars(line: &[char]) -> (out: Option<ProcessNetworkRow>)
    ensures
        out == parse_row(line@),
{
    if line.len() == 0 || line[0] == ',' {
        return None;
    }
    let (process, rest) = match split_once_chars(line, ',') {
        Some(parts) => parts,
        None => return None,
    };
    let pid_text = match rsplit_once_chars(&process, '.') {
        Some((_, after)) => after,
        None => return None,
    };
    let rest2 = match split_once_chars(&rest, ',') {
        Some((_, after)) => after,
        None => return None,
    };
    let pid = parse_i32_chars(&pid_text);
    let bytes_in = parse_u64(&first_field_chars(&rest, ','));
    let bytes_out = parse_u64(&first_field_chars(&rest2, ','));
    match (pid, bytes_in, bytes_out) {
        (Some(pid), Some(bytes_in), Some(bytes_out)) => Some(
            ProcessNetworkRow { pid, counters: NetworkCounters { bytes_in, bytes_out } },
        ),
        _ => None,
    }
}

/// The rows that parse, in order.
pub open spec fn parsed_rows(lines: Seq<Seq<char>>) -> Seq<ProcessNetworkRow>
    decreases lines.len(),
{
    if lines.len() == 0 {
        seq![]
    } else {
        match parse_row(lines.last()) {
            Some(r) => parsed_rows(lines.drop_last()).push(r),
            None => parsed_rows(lines.drop_last()),
        }
    }
}

/// The counters that the last row for `pid` gives.
pub open spec fn counters_in(rows: Seq<ProcessNetworkRow>, pid: Pid) -> Option<NetworkCounters>
    decreases rows.len(),
{
    if rows.len() == 0 {
        None
    } else if rows.last().pid == pid {
        Some(rows.last().counters)
    } else {
        counters_in(rows.drop_last(), pid)
    }
}

/// `rows` names each process id at most once.
pub open spec fn distinct_pids(rows: Seq<ProcessNetworkRow>) -> bool {
    forall|i: int, j: int| 0 <= i < j < rows.len() ==> rows[i].pid != rows[j].pid
}

/// One frame: every process id of the parsed rows once, with the counters
/// of its last row.
pub open spec fn is_frame_of(frame: Seq<ProcessNetworkRow>, rows: Seq<ProcessNetworkRow>) -> bool {
    &&& distinct_pids(frame)
    &&& forall|pid: Pid| #[trigger] counters_in(frame, pid) == counters_in(rows, pid)
}

proof fn lemma_counters_in_found(rows: Seq<ProcessNetworkRow>, k: int)
    requires
        0 <= k < rows.len(),
        forall|j: int| k < j < rows.len() ==> rows[j].pid != rows[k].pid,
    ensures
        counters_in(rows, rows[k].pid) == Some(rows[k].counters),
    decreases rows.len(),
{
    if k < rows.len() - 1 {
        lemma_counters_in_found(rows.drop_last(), k);
    }
}

proof fn lemma_counters_in_absent(rows: Seq<ProcessNetworkRow>, pid: Pid)
    requires
        forall|j: int| 0 <= j < rows.len() ==> rows[j].pid != pid,
    ensures
        counters_in(rows, pid) is None,
    decreases rows.len(),
{
    if rows.len() > 0 {
        lemma_counters_in_absent(rows.drop_last(), pid);
    }
}

proof fn lemma_counters_in_push(rows: Seq<ProcessNetworkRow>, row: ProcessNetworkRow, pid: Pid)
    ensures
        counters_in(rows.push(row), pid) == if pid == row.pid {
            Some(row.counters)
        } else {
            counters_in(rows, pid)
        },
{
    assert(rows.push(row).drop_last() =~= rows);
}

proof fn lemma_frame_step(frame: Seq<ProcessNetworkRow>, rows: Seq<ProcessNetworkRow>, row: ProcessNetworkRow)
    requires
        forall|pid: Pid| #[trigger] counters_in(frame, pid) == counters_in(rows, pid),
    ensures
        forall|pid: Pid| #[trigger] counters_in(frame.push(row), pid) == counters_in(rows.push(row), pid),
{
    assert forall|pid: Pid| #[trigger] counters_in(frame.push(row), pid) == counters_in(rows.push(row), pid) by {
        lemma_counters_in_push(frame, row, pid);
        lemma_counters_in_push(rows, row, pid);
        assert(counters_in(frame, pid) == counters_in(rows, pid));
    }
}

proof fn lemma_counters_in_update(rows: Seq<ProcessNetworkRow>, k: int, row: ProcessNetworkRow)
    requires
        0 <= k < rows.len(),
        rows[k].pid == row.pid,
        distinct_pids(rows),
    ensures
        distinct_pids(rows.update(k, row)),
        forall|pid: Pid| #[trigger] counters_in(rows.update(k, row), pid) == counters_in(rows.push(row), pid),
{
    let u = rows.update(k, row);
    assert forall|pid: Pid| #[trigger] counters_in(u, pid) == counters_in(rows.push(row), pid) by {
        lemma_counters_in_push(rows, row, pid);
        if pid == row.pid {
            lemma_counters_in_found(u, k);
        } else {
            lemma_counters_in_other(rows, k, row, pid);
        }
    }
}

/// The index of the entry for `pid` in a frame.
fn position_of_pid(frame: &Vec<ProcessNetworkRow>, pid: Pid) -> (out: Option<usize>)
    ensures
        match out {
            Some(k) => k < frame@.len() && frame@[k as int].pid == pid,
            None => forall|j: int| 0 <= j < frame@.len() ==> frame@[j].pid != pid,
        },
{
    let mut k: usize = 0;
    while k < frame.len()
        invariant
            k <= frame@.len(),
            forall|j: int| 0 <= j < k ==> frame@[j].pid != pid,
        decreases frame@.len() - k,
    {
        if frame[k].pid == pid {
            return Some(k);
        }
        k = k + 1;
    }
    None
}

proof fn lemma_counters_in_other(rows: Seq<ProcessNetworkRow>, k: int, row: ProcessNetworkRow, pid: Pid)
    requires
        0 <= k < rows.len(),
        pid != row.pid,
        rows[k].pid == row.pid,
    ensures
        counters_in(rows.update(k, row), pid) == counters_in(rows, pid),
    decreases rows.len(),
{
    if k < rows.len() - 1 {
        lemma_counters_in_other(rows.drop_last(), k, row, pid);
        assert(rows.update(k, row).drop_last() =~= rows.drop_last().update(k, row));
    } else {
        assert(rows.update(k, row).drop_last() =~= rows.drop_last());
    }
}

/// Reads a whole `nettop` frame: the parsed rows with one entry per process
/// id, the last row winning, as collecting them into a map does.
pub fn parse_frame(output: &str) -> (out: Vec<ProcessNetworkRow>)
    ensures
        is_frame_of(out@, parsed_rows(lines(output@))),
{
    let text = chars_of(output);
    let all = lines_of(&text);
    let ghost ls = views(all@);
    let mut frame: Vec<ProcessNetworkRow> = Vec::new();
    let mut i: usize = 0;
    while i < all.len()
        invariant
            i <= all@.len(),
            ls == views(all@),
            ls == lines(output@),
            is_frame_of(frame@, parsed_rows(ls.take(i as int))),
        decreases all@.len() - i,
    {
        assert(ls.take(i + 1).drop_last() =~= ls.take(i as int));
        assert(ls.take(i + 1).last() == all@[i as int]@);
        match parse_row_chars(&all[i]) {
            Some(row) => {
                let ghost rows = parsed_rows(ls.take(i as int));
                proof {
                    lemma_frame_step(frame@, rows, row);
                }
                match position_of_pid(&frame, row.pid) {
                    Some(k) => {
                        proof {
                            lemma_counters_in_update(frame@, k as int, row);
                        }
                        frame.set(k, row);
                    },
                    None => {
                        frame.push(row);
                    },
                }
            },
            None => {},
        }
        i = i + 1;
    }
    assert(ls.take(i as int) =~= ls);
    frame
}

/// The identity that the table gives `pid`, if any.
pub open spec fn identity_in(ids: Map<Pid, IdentityView>, pid: Pid) -> Option<IdentityView> {
    if ids.contains_key(pid) {
        Some(ids[pid])
    } else {
        None
    }
}

/// The bytes one process moved between two frames, and its application.
#[derive(Debug)]
pub struct NetworkDelta {
    pub pid: Pid,
    pub application_id: String,
    pub bytes_in: u64,
    pub bytes_out: u64,
}

/// A delta as values.
pub struct DeltaView {
    pub pid: Pid,
    pub application_id: Seq<char>,
    pub bytes_in: u64,
    pub bytes_out: u64,
}

impl View for NetworkDelta {
    type V = DeltaView;

    open spec fn view(&self) -> DeltaView {
        DeltaView {
            pid: self.pid,
            application_id: self.application_id@,
            bytes_in: self.bytes_in,
            bytes_out: self.bytes_out,
        }
    }
}

/// The views of a sequence of deltas.
pub open spec fn delta_views(s: Seq<NetworkDelta>) -> Seq<DeltaView> {
    s.map_values(|d: NetworkDelta| d@)
}

/// How much a counter grew; zero when it went back.
pub open spec fn growth(current: u64, previous: u64) -> u64 {
    if current >= previous {
        (current - previous) as u64
    } else {
        0
    }
}

/// For each row of the current frame, in order, whose process was also in
/// the previous frame and has a known application: the bytes it moved in
/// between.
pub open spec fn frame_deltas(
    current: Seq<ProcessNetworkRow>,
    previous: Seq<ProcessNetworkRow>,
    ids: Map<Pid, IdentityView>,
) -> Seq<DeltaView>
    decreases current.len(),
{
    if current.len() == 0 {
        seq![]
    } else {
        let rest = frame_deltas(current.drop_last(), previous, ids);
        let r = current.last();
        match (counters_in(previous, r.pid), identity_in(ids, r.pid)) {
            (Some(p), Some(id)) => rest.push(
                DeltaView {
                    pid: r.pid,
                    application_id: id.id,
                    bytes_in: growth(r.counters.bytes_in, p.bytes_in),
                    bytes_out: growth(r.counters.bytes_out, p.bytes_out),
                },
            ),
            _ => rest,
        }
    }
}

/// What one frame adds to the previous: the time between them and the
/// deltas.
#[derive(Debug)]
pub struct NetworkFrame {
    pub elapsed_nanos: u64,
    pub deltas: Vec<NetworkDelta>,
}

/// Keeps the previous `nettop` frame and when it was taken, so that the
/// next frame can be turned into rates.
pub struct NetworkCollector {
    previous_frame: Vec<ProcessNetworkRow>,
    previous_frame_time: Option<u64>,
}

impl Default for NetworkCollector {
    fn default() -> (out: NetworkCollector)
        ensures
            out.frame().len() == 0,
            out.frame_time() is None,
    {
        NetworkCollector::new()
    }
}

impl NetworkCollector {
    /// The previous frame.
    pub closed spec fn frame(&self) -> Seq<ProcessNetworkRow> {
        self.previous_frame@
    }

    /// When the previous frame was taken, on the caller's monotonic clock in
    /// nanoseconds.
    pub closed spec fn frame_time(&self) -> Option<u64> {
        self.previous_frame_time
    }

    /// A collector that has seen no frame.
    pub fn new() -> (out: NetworkCollector)
        ensures
            out.frame().len() == 0,
            out.frame_time() is None,
    {
        NetworkCollector { previous_frame: Vec::new(), previous_frame_time: None }
    }

    /// Forgets the previous frame.
    pub fn stop(&mut self)
        ensures
            final(self).frame().len() == 0,
            final(self).frame_time() is None,
    {
        self.previous_frame.clear();
        self.previous_frame_time = None;
    }

    /// Takes a new frame at time `now`. It replaces the previous one; when
    /// there was a previous one and time has passed since, the result holds
    /// the elapsed time and the bytes each known process moved.
    pub fn advance(
        &mut self,
        current: Vec<ProcessNetworkRow>,
        now: u64,
        identities: &HashMap<Pid, ApplicationIdentity>,
    ) -> (out: Option<NetworkFrame>)
        ensures
            final(self).frame() == current@,
            final(self).frame_time() == Some(now),
            match old(self).frame_time() {
                None => out is None,
                Some(t) => if now <= t {
                    out is None
                } else {
                    out is Some && out->0.elapsed_nanos == now - t && delta_views(out->0.deltas@)
                        == frame_deltas(current@, old(self).frame(), identity_map_views(identities@))
                },
            },
    {
        let previous_time = self.previous_frame_time;
        self.previous_frame_time = Some(now);
        let mut previous: Vec<ProcessNetworkRow> = Vec::new();
        std::mem::swap(&mut previous, &mut self.previous_frame);
        let t = match previous_time {
            Some(t) => t,
            None => {
                self.previous_frame = current;
                return None;
            },
        };
        if now <= t {
            self.previous_frame = current;
            return None;
        }
        let deltas = frame_deltas_exec(&current, &previous, identities);
        self.previous_frame = current;
        Some(NetworkFrame { elapsed_nanos: now - t, deltas })
    }
}

fn counters_lookup(rows: &Vec<ProcessNetworkRow>, pid: Pid) -> (out: Option<NetworkCounters>)
    ensures
        out == counters_in(rows@, pid),
{
    let mut i: usize = rows.len();
    assert(rows@.take(i as int) =~= rows@);
    while i > 0
        invariant
            i <= rows@.len(),
            counters_in(rows@, pid) == counters_in(rows@.take(i as int), pid),
        decreases i,
    {
        assert(rows@.take(i as int).drop_last() =~= rows@.take(i - 1));
        if rows[i - 1].pid == pid {
            return Some(rows[i - 1].counters);
        }
        i = i - 1;
    }
    None
}

fn frame_deltas_exec(
    current: &Vec<ProcessNetworkRow>,
    previous: &Vec<ProcessNetworkRow>,
    identities: &HashMap<Pid, ApplicationIdentity>,
) -> (out: Vec<NetworkDelta>)
    ensures
        delta_views(out@) == frame_deltas(current@, previous@, identity_map_views(identities@)),
{
    broadcast use vstd::std_specs::hash::group_hash_axioms;

    let ghost ids = identity_map_views(identities@);
    let mut out: Vec<NetworkDelta> = Vec::new();
    let mut i: usize = 0;
    while i < current.len()
        invariant
            i <= current@.len(),
            ids == identity_map_views(identities@),
            delta_views(out@) == frame_deltas(current@.take(i as int), previous@, ids),
        decreases current@.len() - i,
    {
        let row = current[i];
        assert(current@.take(i + 1).drop_last() =~= current@.take(i as int));
        assert(current@.take(i + 1).last() == row);
        match (counters_lookup(previous, row.pid), identities.get(&row.pid)) {
            (Some(p), Some(identity)) => {
                let delta = NetworkDelta {
                    pid: row.pid,
                    application_id: identity.id.clone(),
                    bytes_in: positive_delta(row.counters.bytes_in, p.bytes_in),
                    bytes_out: positive_delta(row.counters.bytes_out, p.bytes_out),
                };
                let ghost before = out@;
                out.push(delta);
                assert(delta_views(out@) =~= delta_views(before).push(delta@));
            },
            _ => {},
        }
        i = i + 1;
    }
    assert(current@.take(i as int) =~= current@);
    out
}

} // verus!
