//! Tree aggregation: attributing the size of every object met during a walk
//! of a directory subtree to the immediate child of the scan root it lies
//! under.

use vstd::prelude::*;
use crate::datasize::Datasize;

verus! {

/// The parameters of one scan: the root path, whether the traversal follows
/// symbolic links, and an optional quota used only for percentage display.
pub struct ScanContext {
    pub root: String,
    pub include_symlink: bool,
    pub quota_size: Option<Datasize>,
}

/// One filesystem object met during a walk: its path, its depth below the
/// scan root, and its own byte size — `None` when its metadata could not be
/// read.
pub struct ScanEvent {
    pub path: String,
    pub depth: usize,
    pub size: Option<u64>,
}

/// One aggregated result: an immediate child of the scan root and the
/// cumulative byte size of everything beneath it, itself included.
pub struct AggregatedEntry {
    pub path: String,
    pub size: u64,
}

/// The mapping from each immediate child of the scan root to its aggregate,
/// in the order the children were met.
pub struct Aggregation {
    pub entries: Vec<AggregatedEntry>,
}

/// Path-prefix in the component sense: `q` lies under `p` when `q` extends
/// `p` at a separator, or is `p` itself.
pub open spec fn spec_is_path_prefix(p: Seq<char>, q: Seq<char>) -> bool {
    &&& p.len() <= q.len()
    &&& q.take(p.len() as int) == p
    &&& (q.len() == p.len() || q[p.len() as int] == '/')
}

/// An event that opens a new aggregation bucket: an immediate child of the
/// root whose metadata was readable.
pub open spec fn is_bucket_event(e: ScanEvent) -> bool {
    e.depth == 1 && e.size.is_some()
}

/// Whether event `e` is attributed to the bucket keyed `key`: an immediate
/// child opens the bucket of its own path, a deeper object feeds the bucket
/// whose key is a path-prefix of it, and an unreadable object feeds nothing.
pub open spec fn attributed(e: ScanEvent, key: Seq<char>) -> bool {
    e.size.is_some() && ((e.depth == 1 && e.path@ == key) || (e.depth != 1 && spec_is_path_prefix(
        key,
        e.path@,
    )))
}

/// The bytes event `e` adds to the bucket keyed `key`.
pub open spec fn contribution(e: ScanEvent, key: Seq<char>) -> nat {
    if attributed(e, key) {
        e.size.unwrap() as nat
    } else {
        0
    }
}

/// The aggregate a walk owes to the bucket keyed `key`: the sum of the sizes
/// of every readable object attributed to it.
pub open spec fn under_sum(events: Seq<ScanEvent>, key: Seq<char>) -> nat
    decreases events.len(),
{
    if events.len() == 0 {
        0
    } else {
        under_sum(events.drop_last(), key) + contribution(events.last(), key)
    }
}

/// The bucket keys a walk opens, in order: the paths of the readable
/// immediate children.
pub open spec fn depth1_paths(events: Seq<ScanEvent>) -> Seq<Seq<char>>
    decreases events.len(),
{
    if events.len() == 0 {
        Seq::empty()
    } else {
        depth1_paths(events.drop_last()) + (if is_bucket_event(events.last()) {
            seq![events.last().path@]
        } else {
            Seq::empty()
        })
    }
}

/// The paths whose metadata could not be read, in order.
pub open spec fn unreadable_paths(events: Seq<ScanEvent>) -> Seq<Seq<char>>
    decreases events.len(),
{
    if events.len() == 0 {
        Seq::empty()
    } else {
        unreadable_paths(events.drop_last()) + (if events.last().size.is_none() {
            seq![events.last().path@]
        } else {
            Seq::empty()
        })
    }
}

/// Sum of the sizes of all readable objects of a walk.
pub open spec fn events_total(events: Seq<ScanEvent>) -> nat
    decreases events.len(),
{
    if events.len() == 0 {
        0
    } else {
        events_total(events.drop_last()) + (match events.last().size {
            Some(s) => s as nat,
            None => 0,
        })
    }
}

/// Sum of the aggregates held by a sequence of entries.
pub open spec fn entries_sum(s: Seq<AggregatedEntry>) -> nat
    decreases s.len(),
{
    if s.len() == 0 {
        0
    } else {
        entries_sum(s.drop_last()) + s.last().size as nat
    }
}

/// The bucket keys of a sequence of entries.
pub open spec fn keys_of(s: Seq<AggregatedEntry>) -> Seq<Seq<char>> {
    s.map_values(|e: AggregatedEntry| e.path@)
}

/// A walk whose events can be aggregated exactly: the readable immediate
/// children are pairwise non-nested, and nothing attributable to a child is
/// met before the child itself — which is how a depth-first traversal of a
/// directory tree reports its objects.
pub open spec fn wf_walk(events: Seq<ScanEvent>) -> bool {
    &&& (forall|i: int, j: int|
        0 <= i < events.len() && 0 <= j < events.len() && i != j && is_bucket_event(
            #[trigger] events[i],
        ) && is_bucket_event(#[trigger] events[j]) ==> !spec_is_path_prefix(
            events[i].path@,
            events[j].path@,
        ))
    &&& (forall|i: int, j: int|
        0 <= i < j < events.len() && is_bucket_event(#[trigger] events[j]) ==> !attributed(
            #[trigger] events[i],
            events[j].path@,
        ))
}

proof fn lemma_under_sum_step(events: Seq<ScanEvent>, t: int, key: Seq<char>)
    requires
        0 <= t < events.len(),
    ensures
        under_sum(events.take(t + 1), key) == under_sum(events.take(t), key) + contribution(
            events[t],
            key,
        ),
{
    assert(events.take(t + 1).drop_last() =~= events.take(t));
    assert(events.take(t + 1).last() == events[t]);
}

proof fn lemma_depth1_paths_step(events: Seq<ScanEvent>, t: int)
    requires
        0 <= t < events.len(),
    ensures
        depth1_paths(events.take(t + 1)) == depth1_paths(events.take(t)) + (if is_bucket_event(
            events[t],
        ) {
            seq![events[t].path@]
        } else {
            Seq::<Seq<char>>::empty()
        }),
{
    assert(events.take(t + 1).drop_last() =~= events.take(t));
    assert(events.take(t + 1).last() == events[t]);
}

proof fn lemma_unreadable_paths_step(events: Seq<ScanEvent>, t: int)
    requires
        0 <= t < events.len(),
    ensures
        unreadable_paths(events.take(t + 1)) == unreadable_paths(events.take(t)) + (if events[t].size.is_none() {
            seq![events[t].path@]
        } else {
            Seq::<Seq<char>>::empty()
        }),
{
    assert(events.take(t + 1).drop_last() =~= events.take(t));
    assert(events.take(t + 1).last() == events[t]);
}

proof fn lemma_events_total_step(events: Seq<ScanEvent>, t: int)
    requires
        0 <= t < events.len(),
    ensures
        events_total(events.take(t + 1)) == events_total(events.take(t)) + (match events[t].size {
            Some(s) => s as nat,
            None => 0nat,
        }),
{
    assert(events.take(t + 1).drop_last() =~= events.take(t));
    assert(events.take(t + 1).last() == events[t]);
}

proof fn lemma_under_sum_zero(events: Seq<ScanEvent>, key: Seq<char>)
    requires
        forall|i: int| 0 <= i < events.len() ==> contribution(#[trigger] events[i], key) == 0,
    ensures
        under_sum(events, key) == 0,
    decreases events.len(),
{
    if events.len() > 0 {
        assert(forall|i: int|
            0 <= i < events.drop_last().len() ==> events.drop_last()[i] == events[i]);
        lemma_under_sum_zero(events.drop_last(), key);
        assert(contribution(events.last(), key) == 0);
    }
}

proof fn lemma_entries_sum_push(s: Seq<AggregatedEntry>, e: AggregatedEntry)
    ensures
        entries_sum(s.push(e)) == entries_sum(s) + e.size,
{
    assert(s.push(e).drop_last() =~= s);
}

proof fn lemma_entries_sum_update(s: Seq<AggregatedEntry>, idx: int, e: AggregatedEntry)
    requires
        0 <= idx < s.len(),
    ensures
        entries_sum(s.update(idx, e)) == entries_sum(s) - s[idx].size + e.size,
    decreases s.len(),
{
    let su = s.update(idx, e);
    if idx == s.len() - 1 {
        assert(su.drop_last() =~= s.drop_last());
        assert(su.last() == e);
    } else {
        assert(su.drop_last() =~= s.drop_last().update(idx, e));
        assert(su.last() == s.last());
        lemma_entries_sum_update(s.drop_last(), idx, e);
    }
}

proof fn lemma_entries_sum_elem_le(s: Seq<AggregatedEntry>, idx: int)
    requires
        0 <= idx < s.len(),
    ensures
        s[idx].size as nat <= entries_sum(s),
    decreases s.len(),
{
    if idx == s.len() - 1 {
    } else {
        lemma_entries_sum_elem_le(s.drop_last(), idx);
    }
}

proof fn lemma_entries_sum_prefix_le(s: Seq<AggregatedEntry>, t: int)
    requires
        0 <= t <= s.len(),
    ensures
        entries_sum(s.take(t)) <= entries_sum(s),
    decreases s.len() - t,
{
    if t == s.len() {
        assert(s.take(t) =~= s);
    } else {
        assert(s.take(t + 1).drop_last() =~= s.take(t));
        lemma_entries_sum_prefix_le(s, t + 1);
    }
}

/// Pairwise independent bucket keys: none lies over another, so none equals
/// another either.
pub open spec fn keys_independent(keys: Seq<Seq<char>>) -> bool {
    forall|i: int, j: int|
        0 <= i < keys.len() && 0 <= j < keys.len() && i != j ==> !spec_is_path_prefix(
            #[trigger] keys[i],
            #[trigger] keys[j],
        )
}

/// What one event adds over a whole set of bucket keys.
pub open spec fn event_keys_contribution(e: ScanEvent, keys: Seq<Seq<char>>) -> nat
    decreases keys.len(),
{
    if keys.len() == 0 {
        0
    } else {
        event_keys_contribution(e, keys.drop_last()) + contribution(e, keys.last())
    }
}

/// Whether an event is attributed to any of the bucket keys.
pub open spec fn attributed_any(e: ScanEvent, keys: Seq<Seq<char>>) -> bool {
    exists|k: int| 0 <= k < keys.len() && attributed(e, #[trigger] keys[k])
}

/// Sum of the sizes of the events attributed to at least one of the bucket
/// keys.
pub open spec fn attributed_total(events: Seq<ScanEvent>, keys: Seq<Seq<char>>) -> nat
    decreases events.len(),
{
    if events.len() == 0 {
        0
    } else {
        attributed_total(events.drop_last(), keys) + (if attributed_any(events.last(), keys) {
            events.last().size.unwrap() as nat
        } else {
            0
        })
    }
}

/// Sum of the aggregates owed to each bucket key.
pub open spec fn keys_sum(events: Seq<ScanEvent>, keys: Seq<Seq<char>>) -> nat
    decreases keys.len(),
{
    if keys.len() == 0 {
        0
    } else {
        keys_sum(events, keys.drop_last()) + under_sum(events, keys.last())
    }
}

/// Over independent keys an event is attributed to at most one bucket, so
/// its contribution over all keys is its size when any bucket takes it and
/// nothing otherwise.
proof fn lemma_event_contribution_unique(e: ScanEvent, keys: Seq<Seq<char>>)
    requires
        keys_independent(keys),
    ensures
        event_keys_contribution(e, keys) == if attributed_any(e, keys) {
            e.size.unwrap() as nat
        } else {
            0nat
        },
    decreases keys.len(),
{
    if keys.len() > 0 {
        let rest = keys.drop_last();
        let k = keys.last();
        assert(forall|i: int| 0 <= i < rest.len() ==> rest[i] == keys[i]);
        lemma_event_contribution_unique(e, rest);
        if attributed(e, k) {
            assert(attributed_any(e, keys));
            if attributed_any(e, rest) {
                let idx = choose|idx: int| 0 <= idx < rest.len() && attributed(e, #[trigger] rest[idx]);
                if e.depth == 1 {
                    assert(rest[idx] == e.path@ && k == e.path@);
                    assert(keys[idx].take(keys[idx].len() as int) =~= keys[idx]);
                    assert(spec_is_path_prefix(keys[idx], keys[keys.len() - 1]));
                } else {
                    if rest[idx].len() <= k.len() {
                        lemma_prefix_comparable(rest[idx], k, e.path@);
                    } else {
                        lemma_prefix_comparable(k, rest[idx], e.path@);
                    }
                }
                assert(false);
            }
        } else {
            assert(attributed_any(e, keys) == attributed_any(e, rest)) by {
                if attributed_any(e, keys) {
                    let idx = choose|idx: int|
                        0 <= idx < keys.len() && attributed(e, #[trigger] keys[idx]);
                    assert(idx < rest.len() && rest[idx] == keys[idx]);
                }
            }
        }
    }
}

proof fn lemma_keys_sum_events_step(events: Seq<ScanEvent>, keys: Seq<Seq<char>>)
    requires
        events.len() > 0,
    ensures
        keys_sum(events, keys) == keys_sum(events.drop_last(), keys) + event_keys_contribution(
            events.last(),
            keys,
        ),
    decreases keys.len(),
{
    if keys.len() > 0 {
        lemma_keys_sum_events_step(events, keys.drop_last());
    }
}

proof fn lemma_keys_sum_empty(keys: Seq<Seq<char>>)
    ensures
        keys_sum(Seq::<ScanEvent>::empty(), keys) == 0,
    decreases keys.len(),
{
    if keys.len() > 0 {
        lemma_keys_sum_empty(keys.drop_last());
    }
}

/// Aggregation totality: over independent bucket keys, the sum of the
/// aggregates owed to all buckets equals the summed size of every readable
/// object attributed to any bucket — objects whose metadata read failed are
/// excluded from both sides.
pub proof fn lemma_aggregation_totality(events: Seq<ScanEvent>, keys: Seq<Seq<char>>)
    requires
        keys_independent(keys),
    ensures
        keys_sum(events, keys) == attributed_total(events, keys),
    decreases events.len(),
{
    if events.len() == 0 {
        assert(events =~= Seq::<ScanEvent>::empty());
        lemma_keys_sum_empty(keys);
    } else {
        lemma_keys_sum_events_step(events, keys);
        lemma_aggregation_totality(events.drop_last(), keys);
        lemma_event_contribution_unique(events.last(), keys);
    }
}

/// The sum an aggregation reports is the sum its walk owes: when every entry
/// holds the aggregate owed to its key, the entry total equals the per-key
/// total.
pub proof fn lemma_entries_sum_is_keys_sum(events: Seq<ScanEvent>, s: Seq<AggregatedEntry>)
    requires
        forall|idx: int|
            0 <= idx < s.len() ==> (#[trigger] s[idx]).size as nat == under_sum(
                events,
                s[idx].path@,
            ),
    ensures
        entries_sum(s) == keys_sum(events, keys_of(s)),
    decreases s.len(),
{
    if s.len() > 0 {
        assert(keys_of(s).drop_last() =~= keys_of(s.drop_last()));
        assert(keys_of(s).last() == s.last().path@);
        lemma_entries_sum_is_keys_sum(events, s.drop_last());
    }
}

/// Totality of a produced aggregation: when every entry holds the aggregate
/// its walk owes to its key and the keys are independent, the sum of all
/// aggregates — the total the report shows — equals the summed size of every
/// readable object attributed to any bucket. Objects whose metadata read
/// failed appear in neither side.
pub proof fn lemma_total_reported(events: Seq<ScanEvent>, s: Seq<AggregatedEntry>)
    requires
        keys_independent(keys_of(s)),
        forall|idx: int|
            0 <= idx < s.len() ==> (#[trigger] s[idx]).size as nat == under_sum(
                events,
                s[idx].path@,
            ),
    ensures
        entries_sum(s) == attributed_total(events, keys_of(s)),
{
    lemma_entries_sum_is_keys_sum(events, s);
    lemma_aggregation_totality(events, keys_of(s));
}

proof fn lemma_events_total_prefix_le(events: Seq<ScanEvent>, t: int)
    requires
        0 <= t <= events.len(),
    ensures
        events_total(events.take(t)) <= events_total(events),
    decreases events.len() - t,
{
    if t == events.len() {
        assert(events.take(t) =~= events);
    } else {
        lemma_events_total_step(events, t);
        lemma_events_total_prefix_le(events, t + 1);
    }
}

/// Two bucket keys that both lie over one path are nested in each other.
proof fn lemma_prefix_comparable(k1: Seq<char>, k2: Seq<char>, q: Seq<char>)
    requires
        spec_is_path_prefix(k1, q),
        spec_is_path_prefix(k2, q),
        k1.len() <= k2.len(),
    ensures
        spec_is_path_prefix(k1, k2),
{
    assert(k2.take(k1.len() as int) =~= q.take(k1.len() as int));
    if k1.len() < k2.len() {
        assert(k2[k1.len() as int] == q[k1.len() as int]);
    }
}

impl Aggregation {
    /// Keys are pairwise distinct, every aggregate fits the sum bound, and
    /// each key names a readable immediate child of the walk it came from.
    pub open spec fn wf(&self) -> bool {
        &&& (forall|i: int, j: int|
            0 <= i < j < self.entries@.len() ==> (#[trigger] self.entries@[i]).path@ != (
            #[trigger] self.entries@[j]).path@)
        &&& entries_sum(self.entries@) <= u64::MAX
    }

    /// Sum of all aggregates: the total reported for the scan root.
    pub fn total(&self) -> (r: u64)
        requires
            entries_sum(self.entries@) <= u64::MAX,
        ensures
            r == entries_sum(self.entries@),
    {
        let mut acc: u64 = 0;
        let mut i: usize = 0;
        let n = self.entries.len();
        while i < n
            invariant
                0 <= i <= n,
                n == self.entries@.len(),
                entries_sum(self.entries@) <= u64::MAX,
                acc == entries_sum(self.entries@.take(i as int)),
            decreases n - i,
        {
            proof {
                assert(self.entries@.take(i + 1).drop_last() =~= self.entries@.take(i as int));
                assert(self.entries@.take(i + 1).last() == self.entries@[i as int]);
                lemma_entries_sum_prefix_le(self.entries@, i + 1);
            }
            acc = acc + self.entries[i].size;
            i = i + 1;
        }
        proof {
            assert(self.entries@.take(n as int) =~= self.entries@);
        }
        acc
    }
}

/// Component-wise path prefix test.
pub fn is_path_prefix(p: &str, q: &str) -> (r: bool)
    ensures
        r == spec_is_path_prefix(p@, q@),
{
    let pl = p.unicode_len();
    let ql = q.unicode_len();
    if pl > ql {
        return false;
    }
    let mut i: usize = 0;
    while i < pl
        invariant
            0 <= i <= pl <= ql,
            pl == p@.len(),
            ql == q@.len(),
            forall|j: int| 0 <= j < i ==> p@[j] == q@[j],
        decreases pl - i,
    {
        let pc = p.get_char(i);
        let qc = q.get_char(i);
        if pc != qc {
            proof {
                assert(q@.take(pl as int)[i as int] == q@[i as int]);
            }
            return false;
        }
        i = i + 1;
    }
    proof {
        assert(q@.take(pl as int) =~= p@);
    }
    if ql == pl {
        true
    } else {
        let c = q.get_char(pl);
        c == '/'
    }
}

/// Folds a walk's events into the aggregation, exactly as a depth-first
/// traversal attributes them: a readable immediate child opens its own
/// bucket with its own size, a deeper readable object is added to the first
/// bucket lying over it (dropped when none does), and an unreadable object
/// is only reported as a diagnostic. Returns the aggregation together with
/// the diagnostic paths.
pub fn aggregate_events(events: &Vec<ScanEvent>) -> (r: (Aggregation, Vec<String>))
    requires
        wf_walk(events@),
        events_total(events@) <= u64::MAX,
    ensures
        r.0.wf(),
        keys_of(r.0.entries@) == depth1_paths(events@),
        forall|idx: int|
            0 <= idx < r.0.entries@.len() ==> (#[trigger] r.0.entries@[idx]).size as nat
                == under_sum(events@, r.0.entries@[idx].path@),
        entries_sum(r.0.entries@) <= events_total(events@),
        keys_independent(keys_of(r.0.entries@)),
        r.1@.map_values(|s: String| s@) == unreadable_paths(events@),
{
    let mut agg = Aggregation { entries: Vec::new() };
    let mut diags: Vec<String> = Vec::new();
    let n = events.len();
    let mut t: usize = 0;
    proof {
        assert(events@.take(0int) =~= Seq::<ScanEvent>::empty());
        assert(keys_of(agg.entries@) =~= depth1_paths(events@.take(0int)));
        assert(diags@.map_values(|s: String| s@) =~= unreadable_paths(events@.take(0int)));
    }
    while t < n
        invariant
            0 <= t <= n,
            n == events@.len(),
            wf_walk(events@),
            events_total(events@) <= u64::MAX,
            keys_of(agg.entries@) == depth1_paths(events@.take(t as int)),
            forall|idx: int|
                0 <= idx < agg.entries@.len() ==> (#[trigger] agg.entries@[idx]).size as nat
                    == under_sum(events@.take(t as int), agg.entries@[idx].path@),
            forall|idx: int|
                0 <= idx < agg.entries@.len() ==> exists|w: int|
                    0 <= w < t && is_bucket_event(#[trigger] events@[w]) && events@[w].path@ == (
                    #[trigger] agg.entries@[idx]).path@,
            forall|i: int, j: int|
                0 <= i < j < agg.entries@.len() ==> (#[trigger] agg.entries@[i]).path@ != (
                #[trigger] agg.entries@[j]).path@,
            entries_sum(agg.entries@) <= events_total(events@.take(t as int)),
            diags@.map_values(|s: String| s@) == unreadable_paths(events@.take(t as int)),
        decreases n - t,
    {
        proof {
            lemma_depth1_paths_step(events@, t as int);
            lemma_unreadable_paths_step(events@, t as int);
            lemma_events_total_step(events@, t as int);
        }
        let ghost pre = agg.entries@;
        let ghost taken = events@.take(t as int);
        match events[t].size {
            None => {
                diags.push(events[t].path.clone());
                proof {
                    assert(diags@.map_values(|s: String| s@) =~= unreadable_paths(
                        events@.take(t + 1),
                    ));
                    assert(keys_of(agg.entries@) =~= depth1_paths(events@.take(t + 1)));
                    assert forall|idx: int| 0 <= idx < agg.entries@.len() implies (
                    #[trigger] agg.entries@[idx]).size as nat == under_sum(
                        events@.take(t + 1),
                        agg.entries@[idx].path@,
                    ) by {
                        lemma_under_sum_step(events@, t as int, agg.entries@[idx].path@);
                    }
                }
            },
            Some(sz) => {
                if events[t].depth == 1 {
                    agg.entries.push(
                        AggregatedEntry { path: events[t].path.clone(), size: sz },
                    );
                    proof {
                        lemma_entries_sum_push(pre, agg.entries@.last());
                        assert(keys_of(agg.entries@) =~= depth1_paths(events@.take(t + 1)));
                        // the new bucket starts at its own size: nothing earlier fed it
                        assert(forall|i: int|
                            0 <= i < taken.len() ==> contribution(#[trigger] taken[i], events@[t as int].path@)
                                == 0);
                        lemma_under_sum_zero(taken, events@[t as int].path@);
                        lemma_under_sum_step(events@, t as int, events@[t as int].path@);
                        // old buckets are untouched: the new child is none of them
                        assert forall|idx: int| 0 <= idx < pre.len() implies (
                        #[trigger] pre[idx]).size as nat == under_sum(
                            events@.take(t + 1),
                            pre[idx].path@,
                        ) by {
                            let w = choose|w: int|
                                0 <= w < t && is_bucket_event(#[trigger] events@[w])
                                    && events@[w].path@ == pre[idx].path@;
                            assert(!attributed(events@[w], events@[t as int].path@));
                            lemma_under_sum_step(events@, t as int, pre[idx].path@);
                        }
                        assert forall|i: int, j: int|
                            0 <= i < j < agg.entries@.len() implies (
                        #[trigger] agg.entries@[i]).path@ != (
                        #[trigger] agg.entries@[j]).path@ by {
                            if j == agg.entries@.len() - 1 {
                                let w = choose|w: int|
                                    0 <= w < t && is_bucket_event(#[trigger] events@[w])
                                        && events@[w].path@ == pre[i].path@;
                                assert(!attributed(events@[w], events@[t as int].path@));
                            }
                        }
                        assert(diags@.map_values(|s: String| s@) =~= unreadable_paths(
                            events@.take(t + 1),
                        ));
                    }
                } else {
                    // find the first bucket lying over this object
                    let m = agg.entries.len();
                    let mut j: usize = 0;
                    let mut found: bool = false;
                    while j < m && !found
                        invariant
                            0 <= j <= m,
                            m == agg.entries@.len(),
                            t < n == events@.len(),
                            !found ==> forall|jj: int|
                                0 <= jj < j ==> !spec_is_path_prefix(
                                    (#[trigger] agg.entries@[jj]).path@,
                                    events@[t as int].path@,
                                ),
                            found ==> j < m && spec_is_path_prefix(
                                agg.entries@[j as int].path@,
                                events@[t as int].path@,
                            ) && forall|jj: int|
                                0 <= jj < j ==> !spec_is_path_prefix(
                                    (#[trigger] agg.entries@[jj]).path@,
                                    events@[t as int].path@,
                                ),
                        decreases m - j, (if found { 0int } else { 1int }),
                    {
                        if is_path_prefix(agg.entries[j].path.as_str(), events[t].path.as_str()) {
                            found = true;
                        } else {
                            j = j + 1;
                        }
                    }
                    if found {
                        proof {
                            lemma_entries_sum_elem_le(pre, j as int);
                            lemma_events_total_prefix_le(events@, t + 1);
                        }
                        let old_size = agg.entries[j].size;
                        let key = agg.entries[j].path.clone();
                        agg.entries[j] = AggregatedEntry { path: key, size: old_size + sz };
                        proof {
                            lemma_entries_sum_update(
                                pre,
                                j as int,
                                agg.entries@[j as int],
                            );
                            assert(keys_of(agg.entries@) =~= keys_of(pre));
                            assert(keys_of(agg.entries@) =~= depth1_paths(events@.take(t + 1)));
                            // only the matched bucket takes this object
                            assert forall|idx: int|
                                0 <= idx < agg.entries@.len() && idx != j implies contribution(
                                events@[t as int],
                                (#[trigger] agg.entries@[idx]).path@,
                            ) == 0 by {
                                if attributed(events@[t as int], agg.entries@[idx].path@) {
                                    let ki = agg.entries@[idx].path@;
                                    let kj = pre[j as int].path@;
                                    assert(ki != kj);
                                    let wi = choose|w: int|
                                        0 <= w < t && is_bucket_event(#[trigger] events@[w])
                                            && events@[w].path@ == pre[idx].path@;
                                    let wj = choose|w: int|
                                        0 <= w < t && is_bucket_event(#[trigger] events@[w])
                                            && events@[w].path@ == pre[j as int].path@;
                                    if ki.len() <= kj.len() {
                                        lemma_prefix_comparable(ki, kj, events@[t as int].path@);
                                    } else {
                                        lemma_prefix_comparable(kj, ki, events@[t as int].path@);
                                    }
                                    assert(false);
                                }
                            }
                            assert forall|idx: int| 0 <= idx < agg.entries@.len() implies (
                            #[trigger] agg.entries@[idx]).size as nat == under_sum(
                                events@.take(t + 1),
                                agg.entries@[idx].path@,
                            ) by {
                                lemma_under_sum_step(events@, t as int, agg.entries@[idx].path@);
                            }
                            assert(diags@.map_values(|s: String| s@) =~= unreadable_paths(
                                events@.take(t + 1),
                            ));
                        }
                    } else {
                        proof {
                            // no bucket lies over this object: it feeds nothing
                            assert forall|idx: int| 0 <= idx < agg.entries@.len() implies (
                            #[trigger] agg.entries@[idx]).size as nat == under_sum(
                                events@.take(t + 1),
                                agg.entries@[idx].path@,
                            ) by {
                                lemma_under_sum_step(events@, t as int, agg.entries@[idx].path@);
                            }
                            assert(keys_of(agg.entries@) =~= depth1_paths(events@.take(t + 1)));
                            assert(diags@.map_values(|s: String| s@) =~= unreadable_paths(
                                events@.take(t + 1),
                            ));
                        }
                    }
                }
            },
        }
        t = t + 1;
    }
    proof {
        assert(events@.take(n as int) =~= events@);
        let keys = keys_of(agg.entries@);
        assert forall|i: int, j: int|
            0 <= i < keys.len() && 0 <= j < keys.len() && i != j implies !spec_is_path_prefix(
            #[trigger] keys[i],
            #[trigger] keys[j],
        ) by {
            assert(agg.entries@[i].path@ != agg.entries@[j].path@);
            let wi = choose|w: int|
                0 <= w < n && is_bucket_event(#[trigger] events@[w]) && events@[w].path@
                    == agg.entries@[i].path@;
            let wj = choose|w: int|
                0 <= w < n && is_bucket_event(#[trigger] events@[w]) && events@[w].path@
                    == agg.entries@[j].path@;
        }
    }
    (agg, diags)
}

} // verus!
