//! The bounded in-memory history: application totals of past snapshots,
//! limited by age and by count, and the full latest snapshot.
use std::collections::VecDeque;

use vstd::prelude::*;

use crate::collector::{compact, compacted, snapshot_views, ProcessSnapshot, SnapshotView};
use crate::config::{span_millis_i64, TimeSpan};

verus! {

/// `s` carries no process lists.
pub open spec fn is_compacted(s: SnapshotView) -> bool {
    forall|i: int| 0 <= i < s.applications.len() ==> (#[trigger] s.applications[i]).processes.len() == 0
}

/// `history` without the leading snapshots older than `cutoff`.
pub open spec fn drop_older(history: Seq<SnapshotView>, cutoff: int) -> Seq<SnapshotView>
    decreases history.len(),
{
    if history.len() > 0 && history[0].timestamp_unix_ms < cutoff {
        drop_older(history.drop_first(), cutoff)
    } else {
        history
    }
}

/// The last `maximum` snapshots of `history`.
pub open spec fn keep_last(history: Seq<SnapshotView>, maximum: nat) -> Seq<SnapshotView> {
    if history.len() > maximum {
        history.skip(history.len() - maximum)
    } else {
        history
    }
}

/// The oldest time a kept snapshot may have, given the newest one: the
/// newest time less the retention, floored at `i64::MIN`.
pub open spec fn retention_cutoff(newest: i64, retention: TimeSpan) -> int {
    let c = newest - span_millis_i64(retention);
    if c < i64::MIN {
        i64::MIN as int
    } else {
        c
    }
}

/// The history after `snapshot` is appended: the compacted snapshot goes
/// last, then only the newest `maximum` are kept, then the leading ones
/// older than the retention before the new snapshot are dropped.
pub open spec fn appended_history(
    history: Seq<SnapshotView>,
    snapshot: SnapshotView,
    retention: TimeSpan,
    maximum: nat,
) -> Seq<SnapshotView> {
    drop_older(
        keep_last(history.push(compacted(snapshot)), maximum),
        retention_cutoff(snapshot.timestamp_unix_ms, retention),
    )
}

/// Past snapshots without process lists, and the latest snapshot in full.
pub struct HistoryStore {
    retention: TimeSpan,
    maximum_samples: usize,
    snapshots: VecDeque<ProcessSnapshot>,
    latest: Option<ProcessSnapshot>,
}

impl HistoryStore {
    #[verifier::type_invariant]
    spec fn well_formed(self) -> bool {
        &&& self.maximum_samples >= 2
        &&& self.snapshots@.len() <= self.maximum_samples
        &&& forall|i: int|
            0 <= i < self.snapshots@.len() ==> is_compacted(#[trigger] self.snapshots@[i]@)
    }

    /// The kept snapshots, oldest first.
    pub closed spec fn history(&self) -> Seq<SnapshotView> {
        snapshot_views(self.snapshots@)
    }

    /// The latest snapshot, if any was appended.
    pub closed spec fn latest_view(&self) -> Option<SnapshotView> {
        match self.latest {
            Some(s) => Some(s@),
            None => None,
        }
    }

    /// How long snapshots are kept.
    pub closed spec fn retention_span(&self) -> TimeSpan {
        self.retention
    }

    /// How many snapshots are kept at most.
    pub closed spec fn capacity(&self) -> nat {
        self.maximum_samples as nat
    }

    /// An empty history that keeps snapshots for `retention` and at most
    /// `maximum_samples` of them (never fewer than 2).
    pub fn new(retention: TimeSpan, maximum_samples: usize) -> (out: HistoryStore)
        ensures
            out.history().len() == 0,
            out.latest_view() is None,
            out.retention_span() == retention,
            out.capacity() == if maximum_samples < 2 { 2 } else { maximum_samples as nat },
    {
        HistoryStore {
            retention,
            maximum_samples: if maximum_samples < 2 { 2 } else { maximum_samples },
            snapshots: VecDeque::new(),
            latest: None,
        }
    }

    /// Records a snapshot: it becomes the latest in full, and its compacted
    /// form joins the history, which is then trimmed by count and by age.
    pub fn append(&mut self, snapshot: ProcessSnapshot)
        ensures
            final(self).latest_view() == Some(snapshot@),
            final(self).history() == appended_history(
                old(self).history(),
                snapshot@,
                old(self).retention_span(),
                old(self).capacity(),
            ),
            final(self).retention_span() == old(self).retention_span(),
            final(self).capacity() == old(self).capacity(),
            final(self).history().len() <= final(self).capacity(),
            final(self).history().len() >= 1,
            final(self).history().last() == compacted(snapshot@),
            forall|i: int|
                0 <= i < final(self).history().len() ==> is_compacted(
                    #[trigger] final(self).history()[i],
                ),
    {
        proof {
            use_type_invariant(&*self);
        }
        let full = snapshot.duplicate();
        let mut compact_form = snapshot;
        compact(&mut compact_form);
        let ghost added = compact_form@;
        assert(added == compacted(full@));
        let ghost pushed = self.history().push(added);
        let mut snapshots = VecDeque::new();
        std::mem::swap(&mut snapshots, &mut self.snapshots);
        snapshots.push_back(compact_form);
        assert(snapshot_views(snapshots@) =~= pushed);
        assert forall|i: int| 0 <= i < snapshots@.len() implies is_compacted(
            #[trigger] snapshots@[i]@,
        ) by {
            if i < snapshots@.len() - 1 {
                assert(snapshots@[i] == old(self).snapshots@[i]);
            } else {
                assert(snapshots@[i]@ == added);
            }
        }
        let ghost cap = self.maximum_samples as nat;
        while snapshots.len() > self.maximum_samples
            invariant
                self.maximum_samples >= 2,
                cap == self.maximum_samples,
                pushed.len() >= 1,
                snapshots@.len() >= 1,
                snapshot_views(snapshots@) == pushed.skip(pushed.len() - snapshots@.len()),
                snapshots@.len() <= pushed.len(),
                pushed.len() > cap ==> snapshots@.len() >= cap,
                pushed.len() <= cap ==> snapshots@.len() == pushed.len(),
                forall|i: int| 0 <= i < snapshots@.len() ==> is_compacted(#[trigger] snapshots@[i]@),
            decreases snapshots@.len(),
        {
            let ghost before = snapshots@;
            snapshots.pop_front();
            assert(snapshot_views(snapshots@) =~= snapshot_views(before).drop_first());
            assert(snapshot_views(snapshots@) =~= pushed.skip(pushed.len() - snapshots@.len()));
            assert forall|i: int| 0 <= i < snapshots@.len() implies is_compacted(
                #[trigger] snapshots@[i]@,
            ) by {
                assert(snapshots@[i] == before[i + 1]);
            }
        }
        let ghost kept = snapshot_views(snapshots@);
        assert(kept == keep_last(pushed, cap)) by {
            if pushed.len() <= cap {
                assert(pushed.skip(0) =~= pushed);
            }
        }
        assert(kept.last() == added);
        let retention_ms = self.retention.millis_i64();
        let newest = full.timestamp_unix_ms;
        let cutoff: i64 = if newest < i64::MIN + retention_ms {
            i64::MIN
        } else {
            newest - retention_ms
        };
        assert(cutoff == retention_cutoff(full@.timestamp_unix_ms, self.retention));
        while snapshots[0].timestamp_unix_ms < cutoff
            invariant
                snapshots@.len() >= 1,
                snapshots@.len() <= cap,
                cap == self.maximum_samples,
                added.timestamp_unix_ms == newest,
                cutoff <= newest,
                drop_older(snapshot_views(snapshots@), cutoff as int) == drop_older(kept, cutoff as int),
                snapshot_views(snapshots@).last() == added,
                forall|i: int| 0 <= i < snapshots@.len() ==> is_compacted(#[trigger] snapshots@[i]@),
            decreases snapshots@.len(),
        {
            let ghost before = snapshots@;
            if snapshots.len() == 1 {
                assert(snapshot_views(before)[0] == added);
                assert(false);
            }
            snapshots.pop_front();
            assert(snapshot_views(snapshots@) =~= snapshot_views(before).drop_first());
            assert forall|i: int| 0 <= i < snapshots@.len() implies is_compacted(
                #[trigger] snapshots@[i]@,
            ) by {
                assert(snapshots@[i] == before[i + 1]);
            }
        }
        assert(drop_older(snapshot_views(snapshots@), cutoff as int) == snapshot_views(snapshots@));
        self.snapshots = snapshots;
        self.latest = Some(full);
    }

    /// The kept snapshots, oldest first.
    pub fn snapshots(&self) -> (out: Vec<ProcessSnapshot>)
        ensures
            snapshot_views(out@) == self.history(),
    {
        let mut out: Vec<ProcessSnapshot> = Vec::new();
        let mut i: usize = 0;
        while i < self.snapshots.len()
            invariant
                i <= self.snapshots@.len(),
                snapshot_views(out@) == snapshot_views(self.snapshots@.take(i as int)),
            decreases self.snapshots@.len() - i,
        {
            let s = self.snapshots[i].duplicate();
            let ghost before = out@;
            out.push(s);
            assert(snapshot_views(out@) =~= snapshot_views(before).push(self.snapshots@[i as int]@));
            assert(self.snapshots@.take(i + 1) =~= self.snapshots@.take(i as int).push(
                self.snapshots@[i as int],
            ));
            assert(snapshot_views(self.snapshots@.take(i + 1)) =~= snapshot_views(
                self.snapshots@.take(i as int),
            ).push(self.snapshots@[i as int]@));
            i = i + 1;
        }
        assert(self.snapshots@.take(i as int) =~= self.snapshots@);
        out
    }

    /// The latest snapshot in full, if any was appended.
    pub fn latest(&self) -> (out: Option<ProcessSnapshot>)
        ensures
            match out {
                Some(s) => self.latest_view() == Some(s@),
                None => self.latest_view() is None,
            },
    {
        match &self.latest {
            Some(s) => Some(s.duplicate()),
            None => None,
        }
    }
}

} // verus!

verus! {

/// After any append, the history holds at least the new snapshot and at
/// most `maximum` snapshots, ends with the new snapshot's compacted form,
/// its oldest snapshot is not older than the retention before the new one,
/// and it is what came before followed by the new snapshot with only the
/// oldest entries removed, in their order.
pub proof fn lemma_appended_history_bounds(
    history: Seq<SnapshotView>,
    snapshot: SnapshotView,
    retention: TimeSpan,
    maximum: nat,
)
    requires
        maximum >= 1,
    ensures
        ({
            let h = appended_history(history, snapshot, retention, maximum);
            &&& 1 <= h.len() <= maximum
            &&& h.last() == compacted(snapshot)
            &&& h[0].timestamp_unix_ms >= retention_cutoff(snapshot.timestamp_unix_ms, retention)
            &&& h == history.push(compacted(snapshot)).skip(history.len() + 1 - h.len())
        }),
{
    let pushed = history.push(compacted(snapshot));
    let kept = keep_last(pushed, maximum);
    let cutoff = retention_cutoff(snapshot.timestamp_unix_ms, retention);
    assert(kept.len() >= 1 && kept.len() <= maximum);
    assert(kept.last() == compacted(snapshot));
    assert(compacted(snapshot).timestamp_unix_ms >= cutoff);
    assert(kept == pushed.skip(pushed.len() - kept.len()));
    lemma_drop_older_keeps_last(kept, cutoff);
    let d = drop_older(kept, cutoff);
    assert(d =~= pushed.skip(pushed.len() - d.len()));
}

proof fn lemma_drop_older_keeps_last(h: Seq<SnapshotView>, cutoff: int)
    requires
        h.len() >= 1,
        h.last().timestamp_unix_ms >= cutoff,
    ensures
        ({
            let d = drop_older(h, cutoff);
            &&& 1 <= d.len() <= h.len()
            &&& d.last() == h.last()
            &&& d[0].timestamp_unix_ms >= cutoff
            &&& d == h.skip(h.len() - d.len())
        }),
    decreases h.len(),
{
    if h[0].timestamp_unix_ms < cutoff {
        assert(h.len() > 1);
        assert(h.drop_first().last() == h.last());
        lemma_drop_older_keeps_last(h.drop_first(), cutoff);
        let d = drop_older(h.drop_first(), cutoff);
        assert(h.drop_first().skip(h.len() - 1 - d.len()) =~= h.skip(h.len() - d.len()));
    } else {
        assert(h.skip(0) =~= h);
    }
}

/// Compacting twice is compacting once.
pub proof fn lemma_compacted_idempotent(s: SnapshotView)
    ensures
        compacted(compacted(s)) == compacted(s),
        is_compacted(compacted(s)),
{
    assert(compacted(compacted(s)).applications =~= compacted(s).applications);
}

/// The history after `snapshots` are appended, in order, to an empty one.
pub open spec fn history_after(snapshots: Seq<SnapshotView>, retention: TimeSpan, maximum: nat) -> Seq<
    SnapshotView,
>
    decreases snapshots.len(),
{
    if snapshots.len() == 0 {
        seq![]
    } else {
        appended_history(
            history_after(snapshots.drop_last(), retention, maximum),
            snapshots.last(),
            retention,
            maximum,
        )
    }
}

/// The snapshots' times never go back.
pub open spec fn in_time_order(snapshots: Seq<SnapshotView>) -> bool {
    forall|i: int, j: int|
        0 <= i <= j < snapshots.len() ==> snapshots[i].timestamp_unix_ms
            <= snapshots[j].timestamp_unix_ms
}

/// After snapshots in time order are appended to an empty history, it holds
/// the longest run of their compacted forms that ends with the newest, has
/// at most `maximum` entries and is no older than the retention before the
/// newest: a suffix within both bounds whose next older entry, if any, is
/// excluded by the count or by its age.
pub proof fn lemma_history_is_longest_recent_suffix(
    snapshots: Seq<SnapshotView>,
    retention: TimeSpan,
    maximum: nat,
)
    requires
        snapshots.len() > 0,
        maximum >= 1,
        in_time_order(snapshots),
    ensures
        ({
            let h = history_after(snapshots, retention, maximum);
            let all = snapshots.map_values(|x: SnapshotView| compacted(x));
            let cutoff = retention_cutoff(snapshots.last().timestamp_unix_ms, retention);
            &&& 1 <= h.len() <= maximum
            &&& h.len() <= snapshots.len()
            &&& h == all.skip(all.len() - h.len())
            &&& forall|i: int| 0 <= i < h.len() ==> #[trigger] h[i].timestamp_unix_ms >= cutoff
            &&& h.len() < all.len() ==> (h.len() == maximum || all[all.len() - h.len()
                - 1].timestamp_unix_ms < cutoff)
        }),
    decreases snapshots.len(),
{
    let prefix = snapshots.drop_last();
    let s = snapshots.last();
    let prev = history_after(prefix, retention, maximum);
    let h = history_after(snapshots, retention, maximum);
    let all = snapshots.map_values(|x: SnapshotView| compacted(x));
    let all0 = prefix.map_values(|x: SnapshotView| compacted(x));
    let cutoff = retention_cutoff(s.timestamp_unix_ms, retention);
    assert(all =~= all0.push(compacted(s)));
    lemma_appended_history_bounds(prev, s, retention, maximum);
    let pushed = prev.push(compacted(s));
    let kept = keep_last(pushed, maximum);
    lemma_drop_older_drops_old(kept, cutoff);
    if prefix.len() == 0 {
        assert(prev =~= Seq::<SnapshotView>::empty());
        assert(all0 =~= Seq::<SnapshotView>::empty());
    } else {
        assert(in_time_order(prefix)) by {
            assert forall|i: int, j: int| 0 <= i <= j < prefix.len() implies prefix[i].timestamp_unix_ms
                <= prefix[j].timestamp_unix_ms by {
                assert(prefix[i] == snapshots[i] && prefix[j] == snapshots[j]);
            }
        }
        lemma_history_is_longest_recent_suffix(prefix, retention, maximum);
        assert(prefix.last() == snapshots[snapshots.len() - 2]);
    }
    // `prev` is a suffix of `all0`, so `pushed` is a suffix of `all`.
    assert(prev.len() <= all0.len());
    assert forall|k: int| 0 <= k < pushed.len() implies #[trigger] pushed[k] == all[all.len()
        - pushed.len() + k] by {
        if k < prev.len() {
            assert(prev[k] == all0.skip(all0.len() - prev.len())[k]);
        }
    }
    assert(pushed =~= all.skip(all.len() - pushed.len()));
    assert(kept == pushed.skip(pushed.len() - kept.len()));
    assert forall|k: int| 0 <= k < kept.len() implies #[trigger] kept[k] == all[all.len()
        - kept.len() + k] by {
        assert(kept[k] == pushed[pushed.len() - kept.len() + k]);
    }
    assert(kept =~= all.skip(all.len() - kept.len()));
    assert(h == drop_older(kept, cutoff));
    assert forall|k: int| 0 <= k < h.len() implies #[trigger] h[k] == all[all.len() - h.len()
        + k] by {
        assert(h[k] == kept[kept.len() - h.len() + k]);
    }
    assert(h =~= all.skip(all.len() - h.len()));
    // Every entry is no older than the cutoff: entries follow time order.
    assert forall|i: int| 0 <= i < h.len() implies #[trigger] h[i].timestamp_unix_ms >= cutoff by {
        let base = all.len() - h.len();
        assert(0 <= base);
        assert(h[0] == all[base]);
        assert(h[i] == all[base + i]);
        assert(all[base] == compacted(snapshots[base]));
        assert(all[base + i] == compacted(snapshots[base + i]));
        assert(snapshots[base].timestamp_unix_ms <= snapshots[base + i].timestamp_unix_ms);
    }
    if h.len() < all.len() {
        if h.len() < kept.len() {
            assert(kept[kept.len() - h.len() - 1] == all[all.len() - h.len() - 1]);
        } else if kept.len() < pushed.len() {
            assert(kept.len() == maximum);
        } else {
            assert(h =~= pushed);
            if prefix.len() > 0 {
                let c0 = retention_cutoff(prefix.last().timestamp_unix_ms, retention);
                assert(c0 <= cutoff);
                assert(all[all.len() - h.len() - 1] == all0[all0.len() - prev.len() - 1]);
            }
        }
    }
}

/// Dropping the leading old entries leaves a suffix whose next older entry,
/// if any, is older than the cutoff.
proof fn lemma_drop_older_drops_old(h: Seq<SnapshotView>, cutoff: int)
    ensures
        ({
            let d = drop_older(h, cutoff);
            &&& d.len() <= h.len()
            &&& d == h.skip(h.len() - d.len())
            &&& d.len() < h.len() ==> h[h.len() - d.len() - 1].timestamp_unix_ms < cutoff
        }),
    decreases h.len(),
{
    if h.len() > 0 && h[0].timestamp_unix_ms < cutoff {
        lemma_drop_older_drops_old(h.drop_first(), cutoff);
        let d = drop_older(h.drop_first(), cutoff);
        assert(h.drop_first().skip(h.len() - 1 - d.len()) =~= h.skip(h.len() - d.len()));
        if d.len() < h.len() - 1 {
            assert(h.drop_first()[h.len() - 1 - d.len() - 1] == h[h.len() - d.len() - 1]);
        }
    } else {
        assert(h.skip(0) =~= h);
    }
}

} // verus!
