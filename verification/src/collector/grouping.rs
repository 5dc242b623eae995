//! Gathering the processes of a scan into their applications.
use vstd::prelude::*;

use super::process::ProcessObservation;
use super::{ApplicationIdentity, IdentityView, Pid};

verus! {

/// The applications among the first `n` observations, each once, in the
/// order in which they first appear.
pub open spec fn applications_among(obs: Seq<ProcessObservation>, n: nat) -> Seq<IdentityView>
    decreases n,
{
    if n == 0 {
        seq![]
    } else {
        let rest = applications_among(obs, (n - 1) as nat);
        if rest.contains(obs[n - 1].identity@) {
            rest
        } else {
            rest.push(obs[n - 1].identity@)
        }
    }
}

/// The positions, among the first `n` observations, of those that belong
/// to the application `key`, in scan order.
pub open spec fn member_positions(obs: Seq<ProcessObservation>, key: IdentityView, n: nat) -> Seq<usize>
    decreases n,
{
    if n == 0 {
        seq![]
    } else {
        let rest = member_positions(obs, key, (n - 1) as nat);
        if obs[n - 1].identity@ == key {
            rest.push((n - 1) as usize)
        } else {
            rest
        }
    }
}

/// The memory of the observations at `positions`, added up.
pub open spec fn memory_at(obs: Seq<ProcessObservation>, positions: Seq<usize>) -> int
    decreases positions.len(),
{
    if positions.len() == 0 {
        0
    } else {
        memory_at(obs, positions.drop_last()) + obs[positions.last() as int].record.counters.memory_bytes
    }
}

proof fn lemma_memory_at_nonnegative(obs: Seq<ProcessObservation>, positions: Seq<usize>)
    ensures
        memory_at(obs, positions) >= 0,
    decreases positions.len(),
{
    if positions.len() > 0 {
        lemma_memory_at_nonnegative(obs, positions.drop_last());
    }
}

/// A total held in a `u64`, which stops at `u64::MAX`.
pub open spec fn saturated(total: int) -> u64 {
    if total > u64::MAX {
        u64::MAX
    } else {
        total as u64
    }
}

/// The processes of one application in a scan: the positions of their
/// observations and their memory added up.
#[derive(Debug)]
pub struct ApplicationGroup {
    pub identity: ApplicationIdentity,
    pub members: Vec<usize>,
    pub memory_bytes: u64,
}

/// `groups` are the applications among the first `n` observations, in the
/// order they first appear, each with the positions of its processes and
/// their memory.
pub open spec fn grouped(groups: Seq<ApplicationGroup>, obs: Seq<ProcessObservation>, n: nat) -> bool {
    let apps = applications_among(obs, n);
    &&& groups.len() == apps.len()
    &&& forall|k: int|
        0 <= k < groups.len() ==> {
            &&& (#[trigger] groups[k]).identity@ == apps[k]
            &&& groups[k].members@ == member_positions(obs, apps[k], n)
            &&& groups[k].memory_bytes == saturated(memory_at(obs, groups[k].members@))
        }
}

proof fn lemma_applications_distinct(obs: Seq<ProcessObservation>, n: nat)
    ensures
        forall|a: int, b: int|
            0 <= a < b < applications_among(obs, n).len() ==> applications_among(obs, n)[a]
                != applications_among(obs, n)[b],
    decreases n,
{
    if n > 0 {
        let m = (n - 1) as nat;
        lemma_applications_distinct(obs, m);
        let rest = applications_among(obs, m);
        let x = obs[n - 1].identity@;
        if !rest.contains(x) {
            assert forall|a: int| 0 <= a < rest.len() implies rest[a] != x by {
                if rest[a] == x {
                    assert(rest.contains(x));
                }
            }
        }
    }
}

proof fn lemma_member_means_application(obs: Seq<ProcessObservation>, key: IdentityView, n: nat)
    requires
        n <= obs.len(),
    ensures
        member_positions(obs, key, n).len() > 0 ==> applications_among(obs, n).contains(key),
        !applications_among(obs, n).contains(key) ==> member_positions(obs, key, n) == Seq::<
            usize,
        >::empty(),
        forall|i: int|
            0 <= i < n ==> #[trigger] applications_among(obs, n).contains(obs[i].identity@),
    decreases n,
{
    if n > 0 {
        let m = (n - 1) as nat;
        lemma_member_means_application(obs, key, m);
        let rest = applications_among(obs, m);
        let here = applications_among(obs, n);
        assert forall|x: IdentityView| rest.contains(x) implies here.contains(x) by {
            let j = choose|j: int| 0 <= j < rest.len() && rest[j] == x;
            assert(here[j] == x);
        }
        assert(here.contains(obs[n - 1].identity@)) by {
            if !rest.contains(obs[n - 1].identity@) {
                assert(here[rest.len() as int] == obs[n - 1].identity@);
            }
        }
        assert forall|i: int| 0 <= i < n implies #[trigger] here.contains(obs[i].identity@) by {
            if i < m {
                assert(rest.contains(obs[i].identity@));
            }
        }
    }
}

fn same_identity(a: &ApplicationIdentity, b: &ApplicationIdentity) -> (out: bool)
    ensures
        out == (a@ == b@),
{
    if a.id != b.id || a.name != b.name {
        return false;
    }
    match (&a.bundle_path, &b.bundle_path) {
        (Some(x), Some(y)) => *x == *y,
        (None, None) => true,
        _ => false,
    }
}

/// The first group of the application `identity`, if there is one.
fn group_of(groups: &Vec<ApplicationGroup>, identity: &ApplicationIdentity) -> (out: Option<usize>)
    ensures
        match out {
            Some(j) => {
                &&& j < groups@.len()
                &&& groups@[j as int].identity@ == identity@
                &&& forall|k: int| 0 <= k < j ==> (#[trigger] groups@[k]).identity@ != identity@
            },
            None => forall|k: int| 0 <= k < groups@.len() ==> (#[trigger] groups@[k]).identity@ != identity@,
        },
{
    let mut j: usize = 0;
    while j < groups.len()
        invariant
            j <= groups@.len(),
            forall|k: int| 0 <= k < j ==> (#[trigger] groups@[k]).identity@ != identity@,
        decreases groups@.len() - j,
    {
        if same_identity(&groups[j].identity, identity) {
            return Some(j);
        }
        j = j + 1;
    }
    None
}

/// Gathers the observations of a scan by application: one group per
/// application, in the order in which its first process was scanned, with
/// the positions of its processes in scan order and their memory added up,
/// stopping at `u64::MAX`. Every observation is in the group of its own
/// application and in no other.
pub fn group_by_application(observations: &[ProcessObservation]) -> (out: Vec<ApplicationGroup>)
    ensures
        grouped(out@, observations@, observations@.len()),
        forall|a: int, b: int|
            0 <= a < b < out@.len() ==> out@[a].identity@ != out@[b].identity@,
        forall|i: int|
            0 <= i < observations@.len() ==> exists|k: int|
                0 <= k < out@.len() && out@[k].identity@ == (#[trigger] observations@[i]).identity@,
{
    let ghost obs = observations@;
    let mut groups: Vec<ApplicationGroup> = Vec::new();
    let mut i: usize = 0;
    while i < observations.len()
        invariant
            obs == observations@,
            i <= obs.len(),
            grouped(groups@, obs, i as nat),
        decreases obs.len() - i,
    {
        let ghost apps = applications_among(obs, i as nat);
        let ghost key = obs[i as int].identity@;
        proof {
            lemma_applications_distinct(obs, i as nat);
            lemma_member_means_application(obs, key, i as nat);
        }
        let observation = &observations[i];
        let memory = observation.record.counters.memory_bytes;
        let found = group_of(&groups, &observation.identity);
        let ghost before = groups@;
        if let Some(j) = found {
            assert(apps[j as int] == key);
            let total = groups[j].memory_bytes.saturating_add(memory);
            groups[j].memory_bytes = total;
            groups[j].members.push(i);
            proof {
                let after = groups@;
                let n2 = (i + 1) as nat;
                assert(apps.contains(key)) by {
                    assert(apps[j as int] == key);
                }
                assert(applications_among(obs, n2) == apps);
                assert(member_positions(obs, key, n2) == member_positions(obs, key, i as nat).push(i));
                lemma_memory_at_nonnegative(obs, before[j as int].members@);
                assert(after[j as int].members@ =~= before[j as int].members@.push(i));
                assert(after[j as int].members@.drop_last() =~= before[j as int].members@);
                assert(memory_at(obs, after[j as int].members@) == memory_at(obs, before[j as int].members@)
                    + memory);
                assert forall|k: int| 0 <= k < after.len() implies ({
                    &&& (#[trigger] after[k]).identity@ == apps[k]
                    &&& after[k].members@ == member_positions(obs, apps[k], n2)
                    &&& after[k].memory_bytes == saturated(memory_at(obs, after[k].members@))
                }) by {
                    if k != j {
                        assert(after[k] == before[k]);
                        assert(apps[k] != key);
                        assert(member_positions(obs, apps[k], n2) == member_positions(obs, apps[k], i as nat));
                    }
                }
                assert(grouped(after, obs, n2));
            }
        } else {
            assert(!apps.contains(key)) by {
                if apps.contains(key) {
                    let k = choose|k: int| 0 <= k < apps.len() && apps[k] == key;
                    assert(groups@[k].identity@ == apps[k]);
                }
            }
            let members: Vec<usize> = vec![i];
            groups.push(ApplicationGroup {
                identity: observation.identity.duplicate(),
                members,
                memory_bytes: memory,
            });
            proof {
                let after = groups@;
                let n2 = (i + 1) as nat;
                let apps2 = applications_among(obs, n2);
                assert(apps2 == apps.push(key));
                let last = before.len() as int;
                assert(after[last].identity@ == key);
                assert(member_positions(obs, key, i as nat) == Seq::<usize>::empty());
                assert(member_positions(obs, key, n2) =~= seq![i]);
                assert(after[last].members@ =~= seq![i]);
                assert(after[last].members@.drop_last() =~= Seq::<usize>::empty());
                assert(after[last].members@.last() == i);
                assert(memory_at(obs, Seq::<usize>::empty()) == 0);
                assert(obs[i as int].record.counters.memory_bytes == memory);
                assert(memory_at(obs, after[last].members@) == memory_at(obs, Seq::<usize>::empty())
                    + obs[i as int].record.counters.memory_bytes);
                assert forall|k: int| 0 <= k < after.len() implies ({
                    &&& (#[trigger] after[k]).identity@ == apps2[k]
                    &&& after[k].members@ == member_positions(obs, apps2[k], n2)
                    &&& after[k].memory_bytes == saturated(memory_at(obs, after[k].members@))
                }) by {
                    if k < last {
                        assert(after[k] == before[k]);
                        assert(apps2[k] == apps[k]);
                        assert(apps[k] != key) by {
                            if apps[k] == key {
                                assert(apps.contains(key));
                            }
                        }
                        assert(member_positions(obs, apps[k], n2) == member_positions(obs, apps[k], i as nat));
                    }
                }
                assert(grouped(after, obs, n2));
            }
        }
        i = i + 1;
    }
    proof {
        lemma_applications_distinct(obs, obs.len());
        assert forall|i: int| 0 <= i < obs.len() implies exists|k: int|
            0 <= k < groups@.len() && groups@[k].identity@ == (#[trigger] obs[i]).identity@ by {
            lemma_member_means_application(obs, obs[i].identity@, obs.len());
            let apps = applications_among(obs, obs.len());
            assert(apps.contains(obs[i].identity@));
            let k = choose|k: int| 0 <= k < apps.len() && apps[k] == obs[i].identity@;
            assert(groups@[k].identity@ == obs[i].identity@);
        }
    }
    groups
}

proof fn lemma_member_positions_facts(obs: Seq<ProcessObservation>, key: IdentityView, n: nat)
    requires
        n <= obs.len() <= usize::MAX,
    ensures
        forall|j: int|
            0 <= j < member_positions(obs, key, n).len() ==> {
                let p = #[trigger] member_positions(obs, key, n)[j] as int;
                &&& 0 <= p < n
                &&& obs[p].identity@ == key
            },
    decreases n,
{
    if n > 0 {
        let m = (n - 1) as nat;
        lemma_member_positions_facts(obs, key, m);
        let rest = member_positions(obs, key, m);
        let here = member_positions(obs, key, n);
        assert forall|j: int| 0 <= j < here.len() implies {
            let p = #[trigger] here[j] as int;
            &&& 0 <= p < n
            &&& obs[p].identity@ == key
        } by {
            if j < rest.len() {
                assert(here[j] == rest[j]);
            }
        }
    }
}

/// The tables a scan leaves behind (see `ProcessCollector::observe` and
/// `lemma_keyed`: with no process id twice, each id maps to its own
/// process's entry) agree with the applications the scan is gathered into:
/// each process of an application has that application in the identity
/// table, and its own parent and user in the other tables.
pub proof fn lemma_tables_agree_with_groups(
    obs: Seq<ProcessObservation>,
    identities: Map<Pid, IdentityView>,
    parents: Map<Pid, Pid>,
    uids: Map<Pid, u32>,
    groups: Seq<ApplicationGroup>,
)
    requires
        obs.len() <= usize::MAX,
        forall|i: int|
            0 <= i < obs.len() ==> {
                let pid = (#[trigger] obs[i]).record.pid;
                &&& identities.contains_key(pid) && identities[pid] == obs[i].identity@
                &&& parents.contains_key(pid) && parents[pid] == obs[i].record.parent_pid
                &&& uids.contains_key(pid) && uids[pid] == obs[i].record.uid
            },
        grouped(groups, obs, obs.len()),
    ensures
        forall|k: int, j: int|
            0 <= k < groups.len() && 0 <= j < groups[k].members@.len() ==> {
                let p = #[trigger] groups[k].members@[j] as int;
                let pid = obs[p].record.pid;
                &&& 0 <= p < obs.len()
                &&& identities.contains_key(pid) && identities[pid] == groups[k].identity@
                &&& parents.contains_key(pid) && parents[pid] == obs[p].record.parent_pid
                &&& uids.contains_key(pid) && uids[pid] == obs[p].record.uid
            },
{
    let apps = applications_among(obs, obs.len());
    assert forall|k: int, j: int|
        0 <= k < groups.len() && 0 <= j < groups[k].members@.len() implies {
            let p = #[trigger] groups[k].members@[j] as int;
            let pid = obs[p].record.pid;
            &&& 0 <= p < obs.len()
            &&& identities.contains_key(pid) && identities[pid] == groups[k].identity@
            &&& parents.contains_key(pid) && parents[pid] == obs[p].record.parent_pid
            &&& uids.contains_key(pid) && uids[pid] == obs[p].record.uid
        } by {
        lemma_member_positions_facts(obs, apps[k], obs.len());
        assert(groups[k].members@ == member_positions(obs, apps[k], obs.len()));
        let p = groups[k].members@[j] as int;
        assert(obs[p].identity@ == apps[k]);
    }
}

} // verus!
