//! Processes and the applications they belong to: the outermost `.app`
//! bundle of a process or of its nearest ancestor, else the process name.
use std::collections::HashMap;

use vstd::prelude::*;

use super::{copy_option_string, option_view, ApplicationIdentity, IdentityView, Pid};
use crate::text::{chars_of, concat, find, first_occurrence, format_i64, signed_decimal_digits, string_of};

verus! {

/// How much `current` grew since `previous`; zero when a counter went back.
pub fn positive_delta(current: u64, previous: u64) -> (out: u64)
    ensures
        out == if current >= previous {
            current - previous
        } else {
            0
        },
{
    current.saturating_sub(previous)
}

/// `.app`
pub open spec fn app_suffix() -> Seq<char> {
    seq!['.', 'a', 'p', 'p']
}

/// `.app/`
pub open spec fn app_directory_marker() -> Seq<char> {
    seq!['.', 'a', 'p', 'p', '/']
}

/// The outermost application bundle in an executable path: the path up to
/// and including the first `.app` that is followed by `/`; when there is
/// none, the path itself if it ends in `.app`.
pub open spec fn app_root(path: Seq<char>) -> Option<Seq<char>> {
    match first_occurrence(path, app_directory_marker()) {
        Some(i) => Some(path.take(i + 4)),
        None => if path.len() >= 4 && path.skip(path.len() - 4) == app_suffix() {
            Some(path)
        } else {
            None
        },
    }
}

/// The outermost application bundle in an executable path.
pub fn app_root_path(executable_path: &str) -> (out: Option<String>)
    ensures
        option_view(out) == app_root(executable_path@),
{
    let path = chars_of(executable_path);
    let n = path.len();
    let marker = ['.', 'a', 'p', 'p', '/'];
    assert(marker@ =~= app_directory_marker());
    let found = find(&path, &marker);
    if let Some(i) = found {
        proof {
            assert(first_occurrence(path@, app_directory_marker()) == Some(i as int));
            crate::text::lemma_first_occurrence_bounds(path@, app_directory_marker());
            assert(app_directory_marker().len() == 5);
            assert(i + 5 <= path@.len());
        }
        let root = crate::text::slice_of(&path, 0, i + 4);
        return Some(string_of(&root));
    }
    if n >= 4 && path[n - 4] == '.' && path[n - 3] == 'a' && path[n - 2] == 'p' && path[n - 1] == 'p' {
        assert(path@.skip(n - 4) =~= app_suffix());
        return Some(string_of(&path));
    }
    assert(n >= 4 ==> path@.skip(n - 4) != app_suffix()) by {
        if n >= 4 && path@.skip(n - 4) == app_suffix() {
            assert(path@.skip(n - 4)[0] == path@[n - 4]);
            assert(path@.skip(n - 4)[1] == path@[n - 3]);
            assert(path@.skip(n - 4)[2] == path@[n - 2]);
            assert(path@.skip(n - 4)[3] == path@[n - 1]);
        }
    }
    None
}

/// Cumulative counters of one process.
#[derive(Clone, Copy, Debug, PartialEq, Eq, Structural)]
pub struct Counters {
    pub cpu_nanoseconds: u64,
    pub memory_bytes: u64,
    pub disk_read_bytes: u64,
    pub disk_write_bytes: u64,
    pub process_start_abstime: u64,
}

/// What one scan learns of one process.
#[derive(Debug)]
pub struct ProcessRecord {
    pub pid: Pid,
    pub parent_pid: Pid,
    pub uid: u32,
    pub name: String,
    pub executable_path: Option<String>,
    pub counters: Counters,
}

/// The bundle of a record's own executable.
pub open spec fn own_root(record: ProcessRecord) -> Option<Seq<char>> {
    match record.executable_path {
        Some(p) => app_root(p@),
        None => None,
    }
}

/// Follows parent links from `candidate` until a process has an application
/// bundle, the parent id is 1 or lower, the parent is not in `table`, a
/// process repeats, or `fuel` runs out.
pub open spec fn resolve_root(
    table: Map<Pid, ProcessRecord>,
    candidate: ProcessRecord,
    visited: Set<Pid>,
    fuel: nat,
) -> Option<Seq<char>>
    decreases fuel,
{
    if fuel == 0 || visited.contains(candidate.pid) {
        None
    } else if own_root(candidate) is Some {
        own_root(candidate)
    } else if candidate.parent_pid <= 1 {
        None
    } else if table.contains_key(candidate.parent_pid) {
        resolve_root(
            table,
            table[candidate.parent_pid],
            visited.insert(candidate.pid),
            (fuel - 1) as nat,
        )
    } else {
        None
    }
}

/// The application bundle a process belongs to: its own, or that of its
/// nearest ancestor in `table` (the records by process id) that has one; no
/// process is visited twice, so cycles in the parent links end the search.
pub open spec fn resolved_root(table: Map<Pid, ProcessRecord>, record: ProcessRecord) -> Option<
    Seq<char>,
> {
    resolve_root(table, record, Set::empty(), table.dom().len() + 1)
}

/// The records of a table of references.
pub open spec fn table_records(table: Map<Pid, &ProcessRecord>) -> Map<Pid, ProcessRecord> {
    table.map_values(|r: &ProcessRecord| *r)
}

/// The records by process id; a process id that occurs twice gets its later
/// record.
pub open spec fn records_by_pid(records: Seq<ProcessRecord>) -> Map<Pid, ProcessRecord> {
    keyed(pids_of(records), records)
}

/// The process ids a search from `record` can meet: its own and those of
/// the records in the table.
pub open spec fn reachable_pids(table: Map<Pid, ProcessRecord>, record: ProcessRecord) -> Set<Pid> {
    table.dom().map(|k: Pid| table[k].pid).insert(record.pid)
}

/// Whether `pid` is in `v`.
fn contains_pid(v: &Vec<Pid>, pid: Pid) -> (out: bool)
    ensures
        out == v@.contains(pid),
{
    let mut i: usize = 0;
    while i < v.len()
        invariant
            i <= v@.len(),
            forall|j: int| 0 <= j < i ==> v@[j] != pid,
        decreases v@.len() - i,
    {
        if v[i] == pid {
            assert(v@[i as int] == pid);
            return true;
        }
        i = i + 1;
    }
    false
}

/// The application bundle a process belongs to, found through its own
/// executable or its ancestors'.
pub fn resolved_app_root(
    record: &ProcessRecord,
    records_by_pid: &HashMap<Pid, &ProcessRecord>,
) -> (out: Option<String>)
    ensures
        option_view(out) == resolved_root(table_records(records_by_pid@), *record),
{
    broadcast use vstd::std_specs::hash::group_hash_axioms;

    let ghost table = table_records(records_by_pid@);
    let ghost reach = reachable_pids(table, *record);
    proof {
        assert(table.dom() =~= records_by_pid@.dom());
        table.dom().lemma_map_finite(|k: Pid| table[k].pid);
        vstd::set_lib::lemma_map_size_bound(
            table.dom(),
            table.dom().map(|k: Pid| table[k].pid),
            |k: Pid| table[k].pid,
        );
    }
    let mut current: &ProcessRecord = record;
    let mut visited: Vec<Pid> = Vec::new();
    let ghost mut fuel: nat = (table.dom().len() + 1) as nat;
    assert(visited@.to_set() =~= Set::<Pid>::empty());
    loop
        invariant
            table == table_records(records_by_pid@),
            reach == reachable_pids(table, *record),
            reach.finite(),
            reach.len() <= table.dom().len() + 1,
            resolved_root(table, *record) == resolve_root(table, *current, visited@.to_set(), fuel),
            fuel + visited@.len() == table.dom().len() + 1,
            visited@.no_duplicates(),
            forall|i: int| 0 <= i < visited@.len() ==> reach.contains(#[trigger] visited@[i]),
            reach.contains(current.pid),
        decreases fuel,
    {
        if contains_pid(&visited, current.pid) {
            assert(visited@.to_set().contains(current.pid));
            return None;
        }
        proof {
            let grown = visited@.push(current.pid);
            assert(grown.no_duplicates());
            grown.unique_seq_to_set();
            assert(grown.to_set().subset_of(reach)) by {
                assert forall|x: Pid| grown.to_set().contains(x) implies reach.contains(x) by {
                    let i = grown.index_of(x);
                    if i < visited@.len() {
                        assert(grown[i] == visited@[i]);
                    }
                }
            }
            vstd::set_lib::lemma_len_subset(grown.to_set(), reach);
            assert(!visited@.to_set().contains(current.pid));
        }
        match &current.executable_path {
            Some(path) => {
                let root = app_root_path(path.as_str());
                if root.is_some() {
                    return root;
                }
            },
            None => {},
        }
        if current.parent_pid <= 1 {
            return None;
        }
        match records_by_pid.get(&current.parent_pid) {
            Some(parent) => {
                proof {
                    visited@.lemma_push_to_set_commute(current.pid);
                    assert(table.contains_key(current.parent_pid));
                    assert(table[current.parent_pid] == **parent);
                    assert(reach.contains(table[current.parent_pid].pid)) by {
                        assert(table.dom().map(|k: Pid| table[k].pid).contains(
                            table[current.parent_pid].pid,
                        ));
                    }
                    fuel = (fuel - 1) as nat;
                }
                visited.push(current.pid);
                current = *parent;
            },
            None => {
                proof {
                    assert(!table.contains_key(current.parent_pid));
                }
                return None;
            },
        }
    }
}

/// `app:`
pub open spec fn app_key_prefix() -> Seq<char> {
    seq!['a', 'p', 'p', ':']
}

/// `process:`
pub open spec fn process_key_prefix() -> Seq<char> {
    seq!['p', 'r', 'o', 'c', 'e', 's', 's', ':']
}

/// The id of the application a process belongs to: `app:<bundle>` when it
/// has a bundle, else `process:<name>`.
pub open spec fn identity_key(root: Option<Seq<char>>, name: Seq<char>) -> Seq<char> {
    match root {
        Some(r) => app_key_prefix() + r,
        None => process_key_prefix() + name,
    }
}

/// The stem of the last component of a path, as `Path::file_stem` gives it
/// and `to_string_lossy` writes it.
pub uninterp spec fn file_stem_text(path: Seq<char>) -> Option<Seq<char>>;

/// `Path::file_stem` of `path`, written as text by `to_string_lossy`.
#[verifier::external_body]
fn path_file_stem(path: &str) -> (out: Option<String>)
    ensures
        option_view(out) == file_stem_text(path@),
{
    std::path::Path::new(path).file_stem().map(|name| name.to_string_lossy().into_owned())
}

/// The identity made for a process seen for the first time under its key:
/// a bundle's identity is named by the bundle's file stem (the process name
/// when the stem is missing or empty); a bare process's by its name.
pub open spec fn fresh_identity(root: Option<Seq<char>>, name: Seq<char>) -> IdentityView {
    match root {
        Some(r) => IdentityView {
            id: identity_key(root, name),
            name: match file_stem_text(r) {
                Some(stem) => if stem.len() > 0 {
                    stem
                } else {
                    name
                },
                None => name,
            },
            bundle_path: Some(r),
        },
        None => IdentityView { id: identity_key(root, name), name, bundle_path: None },
    }
}

/// The first identity in `cache` with id `key`.
pub open spec fn cached_identity(cache: Seq<IdentityView>, key: Seq<char>) -> Option<IdentityView>
    decreases cache.len(),
{
    if cache.len() == 0 {
        None
    } else if cache[0].id == key {
        Some(cache[0])
    } else {
        cached_identity(cache.drop_first(), key)
    }
}

/// The identity of a process and the cache after it: an identity once made
/// for a key is kept and given again.
pub open spec fn identity_step(cache: Seq<IdentityView>, root: Option<Seq<char>>, name: Seq<char>) -> (
    IdentityView,
    Seq<IdentityView>,
) {
    match cached_identity(cache, identity_key(root, name)) {
        Some(c) => (c, cache),
        None => (fresh_identity(root, name), cache.push(fresh_identity(root, name))),
    }
}

/// The identities of the first `n` records, in order, and the cache after
/// them.
pub open spec fn identities_for(cache: Seq<IdentityView>, records: Seq<ProcessRecord>, n: nat) -> (
    Seq<IdentityView>,
    Seq<IdentityView>,
)
    decreases n,
{
    if n == 0 || n > records.len() {
        (seq![], cache)
    } else {
        let (ids, c) = identities_for(cache, records, (n - 1) as nat);
        let r = records[n - 1];
        let (id, c2) = identity_step(c, resolved_root(records_by_pid(records), r), r.name@);
        (ids.push(id), c2)
    }
}

/// The counters the previous scan recorded for `pid`.
pub open spec fn counters_of(previous: Map<Pid, Counters>, pid: Pid) -> Option<Counters> {
    if previous.contains_key(pid) {
        Some(previous[pid])
    } else {
        None
    }
}

/// The previous counters a process's rates are measured from: those of the
/// same process id from the previous scan, when the process started at the
/// same moment; a reused process id starts a new baseline.
pub open spec fn baseline_for(previous: Map<Pid, Counters>, record: ProcessRecord) -> Option<Counters> {
    match counters_of(previous, record.pid) {
        Some(c) => if c.process_start_abstime == record.counters.process_start_abstime {
            Some(c)
        } else {
            None
        },
        None => None,
    }
}

/// The table that maps each of `pids` to the value at the same place; a
/// process id that occurs twice gets its later value.
pub open spec fn keyed<V>(pids: Seq<Pid>, values: Seq<V>) -> Map<Pid, V>
    decreases pids.len(),
{
    if pids.len() == 0 || pids.len() != values.len() {
        Map::empty()
    } else {
        keyed(pids.drop_last(), values.drop_last()).insert(pids.last(), values.last())
    }
}

/// The process ids of records.
pub open spec fn pids_of(records: Seq<ProcessRecord>) -> Seq<Pid> {
    records.map_values(|r: ProcessRecord| r.pid)
}

/// Every process id in a keyed table comes from `pids`, each of `pids` is a
/// key, and with no id twice each maps to its own value.
pub proof fn lemma_keyed<V>(pids: Seq<Pid>, values: Seq<V>)
    requires
        pids.len() == values.len(),
    ensures
        forall|i: int| 0 <= i < pids.len() ==> #[trigger] keyed(pids, values).contains_key(pids[i]),
        forall|k: Pid| #[trigger] keyed(pids, values).contains_key(k) ==> pids.contains(k),
        pids.no_duplicates() ==> forall|i: int|
            0 <= i < pids.len() ==> #[trigger] keyed(pids, values)[pids[i]] == values[i],
    decreases pids.len(),
{
    if pids.len() > 0 {
        let n = pids.len() - 1;
        let sub = keyed(pids.drop_last(), values.drop_last());
        lemma_keyed(pids.drop_last(), values.drop_last());
        assert(keyed(pids, values) == sub.insert(pids.last(), values.last()));
        assert forall|i: int| 0 <= i < pids.len() implies #[trigger] keyed(pids, values).contains_key(
            pids[i],
        ) by {
            if i < n {
                assert(pids.drop_last()[i] == pids[i]);
                assert(sub.contains_key(pids.drop_last()[i]));
            }
        }
        assert forall|k: Pid| #[trigger] keyed(pids, values).contains_key(k) implies pids.contains(k) by {
            if k != pids.last() {
                assert(sub.contains_key(k));
                assert(pids.drop_last().contains(k));
                let j = choose|j: int| 0 <= j < pids.drop_last().len() && pids.drop_last()[j] == k;
                assert(pids[j] == k);
            } else {
                assert(pids[n] == k);
            }
        }
        if pids.no_duplicates() {
            assert(pids.drop_last().no_duplicates());
            assert forall|i: int| 0 <= i < pids.len() implies #[trigger] keyed(pids, values)[pids[i]]
                == values[i] by {
                if i < n {
                    assert(pids.drop_last()[i] == pids[i]);
                    assert(values.drop_last()[i] == values[i]);
                    assert(pids[i] != pids[n]);
                    assert(sub[pids.drop_last()[i]] == values.drop_last()[i]);
                }
            }
        }
    }
}

/// A scanned process with the application it belongs to and the baseline
/// for its rates.
#[derive(Debug)]
pub struct ProcessObservation {
    pub record: ProcessRecord,
    pub identity: ApplicationIdentity,
    pub baseline: Option<Counters>,
}

/// The views of a sequence of identities.
pub open spec fn identity_views(s: Seq<ApplicationIdentity>) -> Seq<IdentityView> {
    s.map_values(|i: ApplicationIdentity| i@)
}

/// The views of a table of identities by process id.
pub open spec fn identity_map_views(m: Map<Pid, ApplicationIdentity>) -> Map<Pid, IdentityView> {
    m.map_values(|i: ApplicationIdentity| i@)
}

/// Remembers the previous scan: counters for rates, and the application,
/// parent and user of each process.
pub struct ProcessCollector {
    previous_counters: HashMap<Pid, Counters>,
    latest_identities_by_pid: HashMap<Pid, ApplicationIdentity>,
    latest_parent_pids: HashMap<Pid, Pid>,
    latest_uids: HashMap<Pid, u32>,
    identity_cache: Vec<ApplicationIdentity>,
}

impl ProcessCollector {
    /// The counters of the previous scan by process id.
    pub closed spec fn previous(&self) -> Map<Pid, Counters> {
        self.previous_counters@
    }

    /// The identities made so far, oldest first.
    pub closed spec fn cache(&self) -> Seq<IdentityView> {
        identity_views(self.identity_cache@)
    }

    /// The application of each process of the previous scan.
    pub closed spec fn identities(&self) -> Map<Pid, IdentityView> {
        identity_map_views(self.latest_identities_by_pid@)
    }

    /// The parent of each process of the previous scan.
    pub closed spec fn parents(&self) -> Map<Pid, Pid> {
        self.latest_parent_pids@
    }

    /// The user of each process of the previous scan.
    pub closed spec fn uids(&self) -> Map<Pid, u32> {
        self.latest_uids@
    }

    /// A collector that has seen nothing.
    pub fn new() -> (out: ProcessCollector)
        ensures
            out.previous() == Map::<Pid, Counters>::empty(),
            out.cache().len() == 0,
            out.identities() == Map::<Pid, IdentityView>::empty(),
            out.parents() == Map::<Pid, Pid>::empty(),
            out.uids() == Map::<Pid, u32>::empty(),
    {
        let out = ProcessCollector {
            previous_counters: HashMap::new(),
            latest_identities_by_pid: HashMap::new(),
            latest_parent_pids: HashMap::new(),
            latest_uids: HashMap::new(),
            identity_cache: Vec::new(),
        };
        assert(out.identities() =~= Map::<Pid, IdentityView>::empty());
        out
    }

    /// The application of each process of the previous scan.
    pub fn application_identities_by_pid(&self) -> (out: &HashMap<Pid, ApplicationIdentity>)
        ensures
            identity_map_views(out@) == self.identities(),
    {
        &self.latest_identities_by_pid
    }

    /// A copy of the application of each process of the previous scan.
    pub fn identities_by_pid(&self) -> (out: HashMap<Pid, ApplicationIdentity>)
        ensures
            identity_map_views(out@) == self.identities(),
    {
        self.latest_identities_by_pid.clone()
    }

    /// The parent of each process of the previous scan.
    pub fn parent_pids(&self) -> (out: &HashMap<Pid, Pid>)
        ensures
            out@ == self.parents(),
    {
        &self.latest_parent_pids
    }

    /// The user of each process of the previous scan.
    pub fn process_uids(&self) -> (out: &HashMap<Pid, u32>)
        ensures
            out@ == self.uids(),
    {
        &self.latest_uids
    }

    /// The application a process belongs to. An identity made once for a key
    /// is given again for every later process with that key.
    pub fn identity_for(
        &mut self,
        record: &ProcessRecord,
        records_by_pid: &HashMap<Pid, &ProcessRecord>,
    ) -> (out: ApplicationIdentity)
        ensures
            (out@, final(self).cache()) == identity_step(
                old(self).cache(),
                resolved_root(table_records(records_by_pid@), *record),
                record.name@,
            ),
            final(self).previous() == old(self).previous(),
            final(self).identities() == old(self).identities(),
            final(self).parents() == old(self).parents(),
            final(self).uids() == old(self).uids(),
    {
        let root = resolved_app_root(record, records_by_pid);
        let key: String = match &root {
            Some(r) => {
                let mut k = "app:".to_owned();
                proof {
                    reveal_strlit("app:");
                }
                k.append(r.as_str());
                k
            },
            None => {
                let mut k = "process:".to_owned();
                proof {
                    reveal_strlit("process:");
                }
                k.append(record.name.as_str());
                k
            },
        };
        assert(key@ == identity_key(option_view(root), record.name@)) by {
            reveal_strlit("app:");
            reveal_strlit("process:");
            assert("app:"@ =~= app_key_prefix());
            assert("process:"@ =~= process_key_prefix());
        }
        let ghost cache0 = self.cache();
        let mut i: usize = 0;
        assert(cache0.skip(0) =~= cache0);
        while i < self.identity_cache.len()
            invariant
                i <= self.identity_cache@.len(),
                cache0 == identity_views(self.identity_cache@),
                cache0 == old(self).cache(),
                key@ == identity_key(option_view(root), record.name@),
                option_view(root) == resolved_root(table_records(records_by_pid@), *record),
                cached_identity(cache0, key@) == cached_identity(cache0.skip(i as int), key@),
            decreases self.identity_cache@.len() - i,
        {
            assert(cache0.skip(i as int).drop_first() =~= cache0.skip(i + 1));
            assert(cache0.skip(i as int)[0] == self.identity_cache@[i as int]@);
            if self.identity_cache[i].id == key {
                return self.identity_cache[i].duplicate();
            }
            i = i + 1;
        }
        assert(cache0.skip(i as int) =~= Seq::<IdentityView>::empty());
        let identity = match root {
            Some(r) => {
                let stem = path_file_stem(r.as_str());
                let name = match stem {
                    Some(n) => if n.as_str().is_empty() {
                        record.name.clone()
                    } else {
                        n
                    },
                    None => record.name.clone(),
                };
                ApplicationIdentity { id: key, name, bundle_path: Some(r) }
            },
            None => ApplicationIdentity { id: key, name: record.name.clone(), bundle_path: None },
        };
        let copy = identity.duplicate();
        let ghost before = self.identity_cache@;
        self.identity_cache.push(copy);
        assert(identity_views(self.identity_cache@) =~= identity_views(before).push(identity@));
        identity
    }

    /// Records one scan. Each process gets the application it belongs to
    /// (in order, through the identity cache) and the baseline of its
    /// rates; the scan's counters, applications, parents and users replace
    /// those of the previous one.
    pub fn observe(&mut self, records: Vec<ProcessRecord>) -> (out: Vec<ProcessObservation>)
        ensures
            out@.len() == records@.len(),
            ({
                let (ids, cache) = identities_for(old(self).cache(), records@, records@.len());
                &&& final(self).cache() == cache
                &&& forall|i: int|
                    0 <= i < out@.len() ==> {
                        &&& (#[trigger] out@[i]).record == records@[i]
                        &&& out@[i].identity@ == ids[i]
                        &&& out@[i].baseline == baseline_for(old(self).previous(), records@[i])
                    }
                &&& final(self).identities() == keyed(pids_of(records@), ids)
            }),
            final(self).previous() == keyed(
                pids_of(records@),
                records@.map_values(|r: ProcessRecord| r.counters),
            ),
            final(self).parents() == keyed(
                pids_of(records@),
                records@.map_values(|r: ProcessRecord| r.parent_pid),
            ),
            final(self).uids() == keyed(pids_of(records@), records@.map_values(|r: ProcessRecord| r.uid)),
    {
        broadcast use vstd::std_specs::hash::group_hash_axioms;

        let ghost old_previous = self.previous();
        let ghost cache0 = self.cache();
        let mut out: Vec<ProcessObservation> = Vec::new();
        let mut identities: HashMap<Pid, ApplicationIdentity> = HashMap::new();
        let mut parents: HashMap<Pid, Pid> = HashMap::new();
        let mut uids: HashMap<Pid, u32> = HashMap::new();
        let mut counters: HashMap<Pid, Counters> = HashMap::new();
        let mut by_pid: HashMap<Pid, &ProcessRecord> = HashMap::new();
        let mut j: usize = 0;
        assert(table_records(by_pid@) =~= Map::<Pid, ProcessRecord>::empty());
        while j < records.len()
            invariant
                j <= records@.len(),
                table_records(by_pid@) == records_by_pid(records@.take(j as int)),
            decreases records@.len() - j,
        {
            let ghost before = by_pid@;
            by_pid.insert(records[j].pid, &records[j]);
            proof {
                let t1 = records@.take(j + 1);
                let t0 = records@.take(j as int);
                assert(t1.drop_last() =~= t0);
                assert(pids_of(t1).drop_last() =~= pids_of(t0));
                assert(table_records(by_pid@) =~= table_records(before).insert(
                    records@[j as int].pid,
                    records@[j as int],
                ));
                assert(table_records(by_pid@) =~= records_by_pid(t1));
            }
            j = j + 1;
        }
        assert(records@.take(j as int) =~= records@);
        let mut i: usize = 0;
        assert(identity_map_views(identities@) =~= Map::<Pid, IdentityView>::empty());
        while i < records.len()
            invariant
                i <= records@.len(),
                table_records(by_pid@) == records_by_pid(records@),
                self.previous() == old_previous,
                out@.len() == i,
                self.cache() == identities_for(cache0, records@, i as nat).1,
                identities_for(cache0, records@, i as nat).0.len() == i,
                forall|k: int|
                    0 <= k < i ==> (#[trigger] out@[k]).record == records@[k],
                forall|k: int|
                    0 <= k < i ==> (#[trigger] out@[k]).identity@ == identities_for(cache0, records@, i as nat).0[k],
                forall|k: int|
                    0 <= k < i ==> (#[trigger] out@[k]).baseline == baseline_for(old_previous, records@[k]),
                identity_map_views(identities@) == keyed(
                    pids_of(records@.take(i as int)),
                    identities_for(cache0, records@, i as nat).0,
                ),
                counters@ == keyed(
                    pids_of(records@.take(i as int)),
                    records@.take(i as int).map_values(|r: ProcessRecord| r.counters),
                ),
                parents@ == keyed(
                    pids_of(records@.take(i as int)),
                    records@.take(i as int).map_values(|r: ProcessRecord| r.parent_pid),
                ),
                uids@ == keyed(
                    pids_of(records@.take(i as int)),
                    records@.take(i as int).map_values(|r: ProcessRecord| r.uid),
                ),
            decreases records@.len() - i,
        {
            let record = &records[i];
            let ghost (ids_before, _c) = identities_for(cache0, records@, i as nat);
            let identity = self.identity_for(record, &by_pid);
            let baseline = self.baseline(record);
            let ghost before_ids = identities@;
            identities.insert(record.pid, identity.duplicate());
            parents.insert(record.pid, record.parent_pid);
            uids.insert(record.pid, record.uid);
            counters.insert(record.pid, record.counters);
            let copy = ProcessRecord {
                pid: record.pid,
                parent_pid: record.parent_pid,
                uid: record.uid,
                name: record.name.clone(),
                executable_path: copy_option_string(&record.executable_path),
                counters: record.counters,
            };
            out.push(ProcessObservation { record: copy, identity, baseline });
            proof {
                let (ids, cache) = identities_for(cache0, records@, (i + 1) as nat);
                assert(ids == ids_before.push(out@[i as int].identity@));
                let t1 = records@.take(i + 1);
                let t0 = records@.take(i as int);
                assert(t1.drop_last() =~= t0);
                assert(pids_of(t1).drop_last() =~= pids_of(t0));
                assert(pids_of(t1).last() == record.pid);
                assert(ids.drop_last() =~= ids_before);
                assert(identity_map_views(identities@) =~= identity_map_views(before_ids).insert(
                    record.pid,
                    out@[i as int].identity@,
                ));
                assert(t1.map_values(|r: ProcessRecord| r.counters).drop_last() =~= t0.map_values(
                    |r: ProcessRecord| r.counters,
                ));
                assert(t1.map_values(|r: ProcessRecord| r.parent_pid).drop_last() =~= t0.map_values(
                    |r: ProcessRecord| r.parent_pid,
                ));
                assert(t1.map_values(|r: ProcessRecord| r.uid).drop_last() =~= t0.map_values(
                    |r: ProcessRecord| r.uid,
                ));
                assert(counters@ =~= keyed(
                    pids_of(t1),
                    t1.map_values(|r: ProcessRecord| r.counters),
                ));
                assert(parents@ =~= keyed(
                    pids_of(t1),
                    t1.map_values(|r: ProcessRecord| r.parent_pid),
                ));
                assert(uids@ =~= keyed(pids_of(t1), t1.map_values(|r: ProcessRecord| r.uid)));
                assert(identity_map_views(identities@) =~= keyed(pids_of(t1), ids));
            }
            i = i + 1;
        }
        assert(records@.take(i as int) =~= records@);
        self.previous_counters = counters;
        self.latest_identities_by_pid = identities;
        self.latest_parent_pids = parents;
        self.latest_uids = uids;
        out
    }

    /// The baseline of a process's rates from the previous scan.
    fn baseline(&self, record: &ProcessRecord) -> (out: Option<Counters>)
        ensures
            out == baseline_for(self.previous(), *record),
    {
        broadcast use vstd::std_specs::hash::group_hash_axioms;

        match self.previous_counters.get(&record.pid) {
            Some(c) => if c.process_start_abstime == record.counters.process_start_abstime {
                Some(*c)
            } else {
                None
            },
            None => None,
        }
    }
}

} // verus!

verus! {

/// The application bundle found in a path is a prefix of the path that ends
/// in `.app`, and no shorter prefix ending in `.app` is followed by `/`: the
/// outermost bundle. A path with no `.app/` in it is its own bundle when it
/// ends in `.app`.
pub proof fn lemma_app_root_is_outermost_bundle(path: Seq<char>)
    ensures
        match app_root(path) {
            Some(r) => {
                &&& r.len() >= 4
                &&& r == path.take(r.len() as int)
                &&& r.skip(r.len() - 4) == app_suffix()
                &&& forall|j: int|
                    0 <= j < r.len() - 4 ==> !crate::text::occurs_at(path, app_directory_marker(), j)
                &&& r.len() == path.len() ==> !crate::text::contains(path, app_directory_marker())
            },
            None => !crate::text::contains(path, app_directory_marker()) && !(path.len() >= 4
                && path.skip(path.len() - 4) == app_suffix()),
        },
{
    crate::text::lemma_first_occurrence_bounds(path, app_directory_marker());
    match first_occurrence(path, app_directory_marker()) {
        Some(i) => {
            let r = path.take(i + 4);
            let m = path.subrange(i, i + 5);
            assert(m == app_directory_marker());
            assert(r.skip(r.len() - 4) =~= app_suffix()) by {
                assert forall|k: int| 0 <= k < 4 implies r.skip(r.len() - 4)[k] == app_suffix()[k] by {
                    assert(r.skip(r.len() - 4)[k] == path[i + k]);
                    assert(m[k] == path[i + k]);
                }
            }
            assert(r =~= path.take(r.len() as int));
            crate::text::lemma_first_occurrence_is_first(path, app_directory_marker());
        },
        None => {
            if path.len() >= 4 && path.skip(path.len() - 4) == app_suffix() {
                assert(path.take(path.len() as int) =~= path);
            }
        },
    }
}

/// A process whose own executable lies in a bundle belongs to that bundle,
/// whatever its ancestors are.
pub proof fn lemma_own_bundle_wins(table: Map<Pid, ProcessRecord>, record: ProcessRecord)
    requires
        own_root(record) is Some,
    ensures
        resolved_root(table, record) == own_root(record),
{
}

/// `chain` is a line of ancestors in `table`: it starts at a process, each
/// later record is the table's record for the previous one's parent id
/// (which is above 1), no record before the last has a bundle of its own,
/// and no process id occurs twice.
pub open spec fn is_bundleless_ancestry(table: Map<Pid, ProcessRecord>, chain: Seq<ProcessRecord>) -> bool {
    &&& chain.len() > 0
    &&& forall|i: int|
        0 <= i < chain.len() - 1 ==> {
            &&& (#[trigger] chain[i]).parent_pid > 1
            &&& table.contains_key(chain[i].parent_pid)
            &&& table[chain[i].parent_pid] == chain[i + 1]
            &&& own_root(chain[i]) is None
        }
    &&& pids_of(chain).no_duplicates()
}

/// The process ids visited before reaching `chain[i]`.
spec fn visited_before(chain: Seq<ProcessRecord>, i: int) -> Set<Pid> {
    pids_of(chain.take(i)).to_set()
}

proof fn lemma_ancestry_steps(table: Map<Pid, ProcessRecord>, chain: Seq<ProcessRecord>, i: int, fuel: nat)
    requires
        is_bundleless_ancestry(table, chain),
        0 <= i < chain.len(),
        fuel >= chain.len() - i,
    ensures
        resolve_root(table, chain[i], visited_before(chain, i), fuel) == resolve_root(
            table,
            chain.last(),
            visited_before(chain, chain.len() - 1),
            (fuel - (chain.len() - 1 - i)) as nat,
        ),
    decreases chain.len() - i,
{
    if i < chain.len() - 1 {
        let v = visited_before(chain, i);
        assert(!v.contains(chain[i].pid)) by {
            if v.contains(chain[i].pid) {
                let ps = pids_of(chain.take(i));
                let k = choose|k: int| 0 <= k < ps.len() && ps[k] == chain[i].pid;
                assert(pids_of(chain)[k] == pids_of(chain)[i]);
            }
        }
        assert(chain.take(i + 1) =~= chain.take(i).push(chain[i]));
        assert(pids_of(chain.take(i + 1)) =~= pids_of(chain.take(i)).push(chain[i].pid));
        pids_of(chain.take(i)).lemma_push_to_set_commute(chain[i].pid);
        assert(v.insert(chain[i].pid) == visited_before(chain, i + 1));
        assert(chain[i].parent_pid > 1 && table.contains_key(chain[i].parent_pid));
        lemma_ancestry_steps(table, chain, i + 1, (fuel - 1) as nat);
    }
}

proof fn lemma_ancestry_fits_table(table: Map<Pid, ProcessRecord>, chain: Seq<ProcessRecord>)
    requires
        is_bundleless_ancestry(table, chain),
        table.dom().finite(),
    ensures
        chain.len() <= table.dom().len() + 1,
{
    let keys = Seq::new((chain.len() - 1) as nat, |i: int| chain[i].parent_pid);
    assert(keys.no_duplicates()) by {
        assert forall|a: int, b: int| 0 <= a < b < keys.len() implies keys[a] != keys[b] by {
            if keys[a] == keys[b] {
                assert(chain[a + 1] == chain[b + 1]);
                assert(pids_of(chain)[a + 1] == pids_of(chain)[b + 1]);
            }
        }
    }
    keys.unique_seq_to_set();
    assert(keys.to_set().subset_of(table.dom())) by {
        assert forall|x: Pid| keys.to_set().contains(x) implies table.dom().contains(x) by {
            let a = keys.index_of(x);
            assert(table.contains_key(chain[a].parent_pid));
        }
    }
    vstd::set_lib::lemma_len_subset(keys.to_set(), table.dom());
}

/// The search goes through any number of ancestors without a bundle: along
/// a line of bundle-less ancestors without repeats, a process belongs to
/// the bundle of the first ancestor that has one; when the last of them has
/// no parent above 1, or one missing from the table, or one that is already
/// in the line (a cycle), it belongs to no bundle.
pub proof fn lemma_bundle_found_through_ancestors(table: Map<Pid, ProcessRecord>, chain: Seq<ProcessRecord>)
    requires
        is_bundleless_ancestry(table, chain),
        table.dom().finite(),
    ensures
        own_root(chain.last()) is Some ==> resolved_root(table, chain[0]) == own_root(chain.last()),
        own_root(chain.last()) is None && (chain.last().parent_pid <= 1 || !table.contains_key(
            chain.last().parent_pid,
        )) ==> resolved_root(table, chain[0]) is None,
        own_root(chain.last()) is None && chain.last().parent_pid > 1 && table.contains_key(
            chain.last().parent_pid,
        ) && pids_of(chain).contains(table[chain.last().parent_pid].pid) ==> resolved_root(
            table,
            chain[0],
        ) is None,
{
    let n = chain.len();
    let fuel = (table.dom().len() + 1) as nat;
    lemma_ancestry_fits_table(table, chain);
    assert(visited_before(chain, 0) =~= Set::<Pid>::empty()) by {
        assert(pids_of(chain.take(0)) =~= Seq::<Pid>::empty());
    }
    lemma_ancestry_steps(table, chain, 0, fuel);
    let last = chain.last();
    let v = visited_before(chain, n - 1);
    assert(!v.contains(last.pid)) by {
        if v.contains(last.pid) {
            let ps = pids_of(chain.take(n - 1));
            let k = choose|k: int| 0 <= k < ps.len() && ps[k] == last.pid;
            assert(pids_of(chain)[k] == pids_of(chain)[n - 1]);
        }
    }
    let f = (fuel - (n - 1)) as nat;
    assert(f >= 1);
    if own_root(last) is None && last.parent_pid > 1 && table.contains_key(last.parent_pid)
        && pids_of(chain).contains(table[last.parent_pid].pid) {
        assert(chain.take(n as int) =~= chain);
        assert(chain.take(n as int) =~= chain.take(n - 1).push(last));
        assert(pids_of(chain) =~= pids_of(chain.take(n - 1)).push(last.pid));
        pids_of(chain.take(n - 1)).lemma_push_to_set_commute(last.pid);
        assert(v.insert(last.pid) == pids_of(chain).to_set());
        assert(pids_of(chain).to_set().contains(table[last.parent_pid].pid));
        let next = table[last.parent_pid];
        assert(resolve_root(table, last, v, f) == resolve_root(
            table,
            next,
            v.insert(last.pid),
            (f - 1) as nat,
        ));
        assert(resolve_root(table, next, v.insert(last.pid), (f - 1) as nat) is None);
    }
}

/// An application's id is its key: `app:<bundle>` or `process:<name>`,
/// whether it is made anew or found in the cache.
pub proof fn lemma_identity_id_is_key(cache: Seq<IdentityView>, root: Option<Seq<char>>, name: Seq<char>)
    ensures
        identity_step(cache, root, name).0.id == identity_key(root, name),
{
    lemma_cached_identity_has_key(cache, identity_key(root, name));
}

proof fn lemma_cached_identity_has_key(cache: Seq<IdentityView>, key: Seq<char>)
    ensures
        match cached_identity(cache, key) {
            Some(c) => c.id == key,
            None => true,
        },
    decreases cache.len(),
{
    if cache.len() > 0 && cache[0].id != key {
        lemma_cached_identity_has_key(cache.drop_first(), key);
    }
}

/// Once a key has an identity, every later process with that key gets the
/// same identity and the cache stays as it is.
pub proof fn lemma_identity_is_stable(
    cache: Seq<IdentityView>,
    root: Option<Seq<char>>,
    name: Seq<char>,
    later_root: Option<Seq<char>>,
    later_name: Seq<char>,
)
    requires
        identity_key(root, name) == identity_key(later_root, later_name),
    ensures
        ({
            let (first, cache1) = identity_step(cache, root, name);
            let (second, cache2) = identity_step(cache1, later_root, later_name);
            second == first && cache2 == cache1
        }),
{
    let key = identity_key(root, name);
    match cached_identity(cache, key) {
        Some(c) => {},
        None => {
            let f = fresh_identity(root, name);
            lemma_cached_identity_push(cache, f, key);
        },
    }
}

proof fn lemma_cached_identity_push(cache: Seq<IdentityView>, f: IdentityView, key: Seq<char>)
    requires
        cached_identity(cache, key) is None,
        f.id == key,
    ensures
        cached_identity(cache.push(f), key) == Some(f),
    decreases cache.len(),
{
    if cache.len() > 0 {
        assert(cache.push(f).drop_first() =~= cache.drop_first().push(f));
        lemma_cached_identity_push(cache.drop_first(), f, key);
    }
}

} // verus!

verus! {

/// `PID <pid>`: the name of a process whose name cannot be read.
pub fn pid_label(pid: Pid) -> (out: String)
    ensures
        out@ == seq!['P', 'I', 'D', ' '] + signed_decimal_digits(pid as int),
{
    let mut out = "PID ".to_owned();
    proof {
        reveal_strlit("PID ");
    }
    let digits = string_of(&format_i64(pid as i64));
    out.append(digits.as_str());
    assert(out@ =~= seq!['P', 'I', 'D', ' '] + signed_decimal_digits(pid as int));
    out
}

/// The text that `String::from_utf8_lossy` makes of some bytes.
pub uninterp spec fn lossy_text(bytes: Seq<u8>) -> Seq<char>;

/// `String::from_utf8_lossy` of `bytes`, owned.
#[verifier::external_body]
fn utf8_lossy(bytes: &[u8]) -> (out: String)
    ensures
        out@ == lossy_text(bytes@),
{
    String::from_utf8_lossy(bytes).into_owned()
}

/// The bytes a C string call wrote: the first `length` (at most the whole
/// buffer) without one trailing NUL.
pub open spec fn written_bytes(buffer: Seq<u8>, length: int) -> Seq<u8> {
    let n = if length < buffer.len() {
        length
    } else {
        buffer.len() as int
    };
    let bytes = buffer.take(n);
    if bytes.len() > 0 && bytes.last() == 0 {
        bytes.drop_last()
    } else {
        bytes
    }
}

/// The text a C string call wrote into `buffer`, reporting `length`:
/// nothing when it reported no bytes or when the text is empty.
pub fn decode_buffer(buffer: &[u8], length: i32) -> (out: Option<String>)
    ensures
        match out {
            Some(s) => length > 0 && s@ == lossy_text(written_bytes(buffer@, length as int))
                && s@.len() > 0,
            None => length <= 0 || lossy_text(written_bytes(buffer@, length as int)).len() == 0,
        },
{
    if length <= 0 {
        return None;
    }
    let n: usize = if (length as usize) < buffer.len() {
        length as usize
    } else {
        buffer.len()
    };
    let mut bytes: Vec<u8> = Vec::new();
    let mut i: usize = 0;
    while i < n
        invariant
            n <= buffer@.len(),
            i <= n,
            bytes@ == buffer@.take(i as int),
        decreases n - i,
    {
        bytes.push(buffer[i]);
        i = i + 1;
        assert(buffer@.take(i as int) =~= buffer@.take(i - 1).push(buffer@[i - 1]));
    }
    if bytes.len() > 0 && bytes[bytes.len() - 1] == 0 {
        bytes.pop();
    }
    assert(bytes@ =~= written_bytes(buffer@, length as int));
    let value = utf8_lossy(bytes.as_slice());
    if value.as_str().is_empty() {
        None
    } else {
        Some(value)
    }
}

} // verus!
