//! Aggregation of the usage metrics that clients post.
//!
//! Every report names an application and carries, for each toggle, a count per
//! state. The store keeps one entry per application and adds each report's
//! counts into it; the batch is taken out whole when it is sent upstream.
use vstd::prelude::*;
use crate::strmap::{
    StrMap, distinct_keys, entries_view, pairs_to_map, lemma_pairs_to_map_contains,
    lemma_pairs_to_map_index, lemma_pairs_to_map_len,
};

verus! {

/// Counts per toggle and state.
pub type Counts = Map<Seq<char>, Map<Seq<char>, u64>>;

/// The count of `state` in `m`, zero where it is absent.
pub open spec fn state_count(m: Map<Seq<char>, u64>, state: Seq<char>) -> int {
    if m.contains_key(state) {
        m[state] as int
    } else {
        0
    }
}

/// The counts of `toggle` in `c`, none where it is absent.
pub open spec fn states_of(c: Counts, toggle: Seq<char>) -> Map<Seq<char>, u64> {
    if c.contains_key(toggle) {
        c[toggle]
    } else {
        Map::empty()
    }
}

/// Whether `m` counts at least one state.
pub open spec fn has_states(m: Map<Seq<char>, u64>) -> bool {
    exists|s: Seq<char>| m.contains_key(s)
}

/// The per-state counts of `old` with those of `add` added in.
pub open spec fn merged_states(old: Map<Seq<char>, u64>, add: Map<Seq<char>, u64>) -> Map<
    Seq<char>,
    u64,
> {
    Map::new(
        |s: Seq<char>| old.contains_key(s) || add.contains_key(s),
        |s: Seq<char>| (state_count(old, s) + state_count(add, s)) as u64,
    )
}

/// The counts of `old` with those of `add` added in: a toggle is kept when
/// `old` has it, and added when `add` counts at least one state of it.
pub open spec fn merged_counts(old: Counts, add: Counts) -> Counts {
    Map::new(
        |t: Seq<char>| old.contains_key(t) || (add.contains_key(t) && has_states(add[t])),
        |t: Seq<char>| merged_states(states_of(old, t), states_of(add, t)),
    )
}

/// Adding `add` into `old` keeps every count within `u64`.
pub open spec fn counts_fit(old: Counts, add: Counts) -> bool {
    forall|t: Seq<char>, s: Seq<char>|
        #![trigger states_of(add, t).contains_key(s)]
        states_of(add, t).contains_key(s) ==> state_count(states_of(old, t), s) + state_count(
            states_of(add, t),
            s,
        ) <= u64::MAX
}

/// The counts that a toggle map holds.
pub open spec fn counts_of(t: StrMap<StrMap<u64>>) -> Counts {
    t@.map_values(|m: StrMap<u64>| m@)
}

/// The time window and the counts of one report or of one application's
/// aggregate; `T` is the type of the window's time stamps.
pub struct MetricsBucket<T> {
    pub start: T,
    pub stop: T,
    /// toggle name: state: count
    pub toggles: StrMap<StrMap<u64>>,
}

/// The metrics of one application.
pub struct Metrics<T> {
    pub app_name: String,
    pub instance_id: String,
    pub bucket: MetricsBucket<T>,
}

/// What a [`Metrics`] value holds.
pub struct MetricsView<T> {
    pub app_name: Seq<char>,
    pub instance_id: Seq<char>,
    pub start: T,
    pub stop: T,
    pub toggles: Counts,
}

impl<T> View for Metrics<T> {
    type V = MetricsView<T>;

    open spec fn view(&self) -> MetricsView<T> {
        MetricsView {
            app_name: self.app_name@,
            instance_id: self.instance_id@,
            start: self.bucket.start,
            stop: self.bucket.stop,
            toggles: counts_of(self.bucket.toggles),
        }
    }
}

/// The instance id under which the proxy reports the metrics it aggregates.
pub open spec fn proxy_instance_id() -> Seq<char> {
    "proxy"@
}

/// The entry that a report of an application goes into: the existing one, or a
/// fresh one with the report's time window and no counts.
pub open spec fn entry_for<T>(store: Map<Seq<char>, MetricsView<T>>, report: MetricsView<T>) -> MetricsView<T> {
    if store.contains_key(report.app_name) {
        store[report.app_name]
    } else {
        MetricsView {
            app_name: report.app_name,
            instance_id: proxy_instance_id(),
            start: report.start,
            stop: report.stop,
            toggles: Map::empty(),
        }
    }
}

/// The store after `report` has been merged into it.
pub open spec fn merged_store<T>(store: Map<Seq<char>, MetricsView<T>>, report: MetricsView<T>) -> Map<
    Seq<char>,
    MetricsView<T>,
> {
    let entry = entry_for(store, report);
    store.insert(
        report.app_name,
        MetricsView { toggles: merged_counts(entry.toggles, report.toggles), ..entry },
    )
}

/// Merging `report` into `store` keeps every count within `u64`.
pub open spec fn report_fits<T>(store: Map<Seq<char>, MetricsView<T>>, report: MetricsView<T>) -> bool {
    counts_fit(entry_for(store, report).toggles, report.toggles)
}

proof fn lemma_merged_states_step(
    old: Map<Seq<char>, u64>,
    done: Map<Seq<char>, u64>,
    s: Seq<char>,
    c: u64,
)
    requires
        !done.contains_key(s),
        state_count(old, s) + c <= u64::MAX,
    ensures
        merged_states(old, done.insert(s, c)) == merged_states(old, done).insert(
            s,
            (state_count(old, s) + c) as u64,
        ),
{
    assert(merged_states(old, done.insert(s, c)) =~= merged_states(old, done).insert(
        s,
        (state_count(old, s) + c) as u64,
    ));
}

/// Adds the counts of `add` to those of `states`.
fn add_state_counts(states: &mut StrMap<u64>, add: &StrMap<u64>)
    requires
        forall|s: Seq<char>|
            #![trigger add@.contains_key(s)]
            add@.contains_key(s) ==> state_count(old(states)@, s) + add@[s] <= u64::MAX,
    ensures
        final(states)@ == merged_states(old(states)@, add@),
{
    let ghost old_states = states@;
    let n = add.len();
    let mut i: usize = 0;
    assert(merged_states(old_states, Map::empty()) =~= old_states);
    assert(add.pairs().take(0) =~= Seq::<(Seq<char>, u64)>::empty());
    while i < n
        invariant
            n == add.pairs().len(),
            distinct_keys(add.pairs()),
            add@ == pairs_to_map(add.pairs()),
            i <= n,
            states@ == merged_states(old_states, pairs_to_map(add.pairs().take(i as int))),
            forall|s: Seq<char>|
                #![trigger add@.contains_key(s)]
                add@.contains_key(s) ==> state_count(old_states, s) + add@[s] <= u64::MAX,
        decreases n - i,
    {
        let key = add.key_at(i);
        let c = *add.value_at(i);
        let ghost s = key@;
        let ghost done = pairs_to_map(add.pairs().take(i as int));
        proof {
            lemma_pairs_to_map_index(add.pairs(), i as int);
            lemma_pairs_to_map_contains(add.pairs().take(i as int), s);
            if done.contains_key(s) {
                let j = choose|j: int|
                    0 <= j < add.pairs().take(i as int).len() && #[trigger] add.pairs().take(
                        i as int,
                    )[j].0 == s;
                assert(add.pairs()[j].0 == add.pairs()[i as int].0);
            }
            assert(add.pairs().take(i + 1).drop_last() =~= add.pairs().take(i as int));
            lemma_merged_states_step(old_states, done, s, c);
        }
        let current: u64 = match states.get(key.as_str()) {
            Some(v) => *v,
            None => 0,
        };
        states.insert(key.clone(), current + c);
        i = i + 1;
    }
    assert(add.pairs().take(n as int) =~= add.pairs());
}

proof fn lemma_merged_states_empty(x: Map<Seq<char>, u64>)
    ensures
        merged_states(x, Map::empty()) == x,
{
    assert(merged_states(x, Map::empty()) =~= x);
}

proof fn lemma_merged_counts_empty(c: Counts)
    ensures
        merged_counts(c, Map::empty()) == c,
{
    assert forall|t: Seq<char>| c.contains_key(t) implies #[trigger] merged_counts(c, Map::empty())[t]
        == c[t] by {
        lemma_merged_states_empty(c[t]);
    }
    assert(merged_counts(c, Map::empty()) =~= c);
}

proof fn lemma_merged_counts_step(old: Counts, done: Counts, t: Seq<char>, x: Map<Seq<char>, u64>)
    requires
        !done.contains_key(t),
    ensures
        has_states(x) ==> merged_counts(old, done.insert(t, x)) == merged_counts(old, done).insert(
            t,
            merged_states(states_of(old, t), x),
        ),
        !has_states(x) ==> merged_counts(old, done.insert(t, x)) == merged_counts(old, done),
{
    if has_states(x) {
        assert(merged_counts(old, done.insert(t, x)) =~= merged_counts(old, done).insert(
            t,
            merged_states(states_of(old, t), x),
        ));
    } else {
        assert(merged_states(states_of(old, t), x) =~= merged_states(
            states_of(old, t),
            states_of(done, t),
        ));
        assert(merged_counts(old, done.insert(t, x)) =~= merged_counts(old, done));
    }
}

/// Adds the counts of `add` to those of `toggles`.
fn add_counts(toggles: &mut StrMap<StrMap<u64>>, add: &StrMap<StrMap<u64>>)
    requires
        counts_fit(counts_of(*old(toggles)), counts_of(*add)),
    ensures
        counts_of(*final(toggles)) == merged_counts(counts_of(*old(toggles)), counts_of(*add)),
{
    let ghost old_counts = counts_of(*toggles);
    let ghost add_counts = counts_of(*add);
    let n = add.len();
    let mut i: usize = 0;
    let ghost pv = add.pairs().map_values(|e: (Seq<char>, StrMap<u64>)| (e.0, e.1@));
    proof {
        lemma_merged_counts_empty(old_counts);
        assert(pv.take(0) =~= Seq::<(Seq<char>, Map<Seq<char>, u64>)>::empty());
    }
    while i < n
        invariant
            n == add.pairs().len(),
            distinct_keys(add.pairs()),
            add@ == pairs_to_map(add.pairs()),
            add_counts == counts_of(*add),
            pv == add.pairs().map_values(|e: (Seq<char>, StrMap<u64>)| (e.0, e.1@)),
            i <= n,
            counts_of(*toggles) == merged_counts(old_counts, pairs_to_map(pv.take(i as int))),
            counts_fit(old_counts, add_counts),
        decreases n - i,
    {
        let key = add.key_at(i);
        let info = add.value_at(i);
        let ghost t = key@;
        let ghost done = pairs_to_map(pv.take(i as int));
        proof {
            lemma_pairs_to_map_index(add.pairs(), i as int);
            assert(add_counts[t] == info@);
            assert(pv.take(i + 1).drop_last() =~= pv.take(i as int));
            assert(pv.take(i + 1).last() == (t, info@));
            lemma_pairs_to_map_contains(pv.take(i as int), t);
            if done.contains_key(t) {
                let j = choose|j: int|
                    0 <= j < pv.take(i as int).len() && #[trigger] pv.take(i as int)[j].0 == t;
                assert(add.pairs()[j].0 == add.pairs()[i as int].0);
            }
            lemma_merged_counts_step(old_counts, done, t, info@);
            assert(pairs_to_map(pv.take(i + 1)) == done.insert(t, info@));
            lemma_merged_states_empty(states_of(old_counts, t));
        }
        if info.len() == 0 {
            proof {
                if has_states(info@) {
                    let s = choose|s: Seq<char>| info@.contains_key(s);
                    lemma_pairs_to_map_contains(info.pairs(), s);
                }
            }
        } else {
            proof {
                lemma_pairs_to_map_index(info.pairs(), 0);
                assert(info@.contains_key(info.pairs()[0].0));
            }
            let ghost before = counts_of(*toggles);
            let mut states = match toggles.remove(key.as_str()) {
                Some(m) => m,
                None => StrMap::new(),
            };
            proof {
                assert(states@ == states_of(before, t));
                assert forall|s: Seq<char>| #![trigger info@.contains_key(s)] info@.contains_key(s)
                    implies state_count(states@, s) + info@[s] <= u64::MAX by {
                    assert(states_of(add_counts, t).contains_key(s));
                }
            }
            add_state_counts(&mut states, info);
            let ghost merged = states@;
            toggles.insert(key.clone(), states);
            proof {
                assert(counts_of(*toggles) =~= before.insert(t, merged));
                assert(merged == merged_states(states_of(old_counts, t), info@));
            }
        }
        i = i + 1;
    }
    proof {
        assert(pv.take(n as int) =~= pv);
        assert(pairs_to_map(pv) =~= add_counts) by {
            lemma_pairs_to_map_of_values(add.pairs());
        }
    }
}

/// Mapping the values of the entries maps the values of the map they describe.
proof fn lemma_pairs_to_map_of_values(p: Seq<(Seq<char>, StrMap<u64>)>)
    ensures
        pairs_to_map(p.map_values(|e: (Seq<char>, StrMap<u64>)| (e.0, e.1@))) == pairs_to_map(
            p,
        ).map_values(|m: StrMap<u64>| m@),
    decreases p.len(),
{
    let f = |e: (Seq<char>, StrMap<u64>)| (e.0, e.1@);
    if p.len() > 0 {
        lemma_pairs_to_map_of_values(p.drop_last());
        assert(p.map_values(f).drop_last() =~= p.drop_last().map_values(f));
    }
    assert(pairs_to_map(p.map_values(f)) =~= pairs_to_map(p).map_values(|m: StrMap<u64>| m@));
}


/// The counts of an optional per-state map, none where it is absent.
pub open spec fn states_or_none(m: Option<&StrMap<u64>>) -> Map<Seq<char>, u64> {
    match m {
        Some(x) => x@,
        None => Map::empty(),
    }
}

/// The counts of an optional toggle map, none where it is absent.
pub open spec fn counts_or_none(m: Option<&StrMap<StrMap<u64>>>) -> Counts {
    match m {
        Some(x) => counts_of(*x),
        None => Map::empty(),
    }
}

/// Adding the counts of `add` to those of `old` keeps each within `u64`.
pub open spec fn states_fit(old: Map<Seq<char>, u64>, add: Map<Seq<char>, u64>) -> bool {
    forall|s: Seq<char>|
        #![trigger add.contains_key(s)]
        add.contains_key(s) ==> state_count(old, s) + add[s] <= u64::MAX
}

/// Whether adding the counts of `add` to those of `old` keeps each within `u64`.
fn check_states_fit(old: Option<&StrMap<u64>>, add: &StrMap<u64>) -> (r: bool)
    ensures
        r == states_fit(states_or_none(old), add@),
{
    let n = add.len();
    let mut i: usize = 0;
    while i < n
        invariant
            n == add.pairs().len(),
            distinct_keys(add.pairs()),
            add@ == pairs_to_map(add.pairs()),
            i <= n,
            forall|j: int|
                #![trigger add.pairs()[j]]
                0 <= j < i ==> state_count(states_or_none(old), add.pairs()[j].0)
                    + add.pairs()[j].1 <= u64::MAX,
        decreases n - i,
    {
        let key = add.key_at(i);
        let c = *add.value_at(i);
        let existing: u64 = match old {
            Some(m) => match m.get(key.as_str()) {
                Some(v) => *v,
                None => 0,
            },
            None => 0,
        };
        if c > u64::MAX - existing {
            proof {
                lemma_pairs_to_map_index(add.pairs(), i as int);
                assert(add@.contains_key(key@));
            }
            return false;
        }
        i = i + 1;
    }
    proof {
        assert forall|s: Seq<char>| #![trigger add@.contains_key(s)] add@.contains_key(s) implies state_count(
            states_or_none(old),
            s,
        ) + add@[s] <= u64::MAX by {
            lemma_pairs_to_map_contains(add.pairs(), s);
            let j = choose|j: int| 0 <= j < add.pairs().len() && #[trigger] add.pairs()[j].0 == s;
            lemma_pairs_to_map_index(add.pairs(), j);
        }
    }
    true
}

/// Whether adding the counts of `add` to those of `old` keeps each within `u64`.
fn check_counts_fit(old: Option<&StrMap<StrMap<u64>>>, add: &StrMap<StrMap<u64>>) -> (r: bool)
    ensures
        r == counts_fit(counts_or_none(old), counts_of(*add)),
{
    let n = add.len();
    let mut i: usize = 0;
    while i < n
        invariant
            n == add.pairs().len(),
            distinct_keys(add.pairs()),
            add@ == pairs_to_map(add.pairs()),
            i <= n,
            forall|j: int|
                #![trigger add.pairs()[j]]
                0 <= j < i ==> states_fit(
                    states_of(counts_or_none(old), add.pairs()[j].0),
                    add.pairs()[j].1@,
                ),
        decreases n - i,
    {
        let key = add.key_at(i);
        let info = add.value_at(i);
        let old_states: Option<&StrMap<u64>> = match old {
            Some(m) => m.get(key.as_str()),
            None => None,
        };
        proof {
            assert(states_or_none(old_states) == states_of(counts_or_none(old), key@));
        }
        if !check_states_fit(old_states, info) {
            proof {
                lemma_pairs_to_map_index(add.pairs(), i as int);
                let s = choose|s: Seq<char>|
                    #![trigger info@.contains_key(s)]
                    info@.contains_key(s) && !(state_count(states_or_none(old_states), s)
                        + info@[s] <= u64::MAX);
                assert(states_of(counts_of(*add), key@).contains_key(s));
            }
            return false;
        }
        i = i + 1;
    }
    proof {
        assert forall|t: Seq<char>, s: Seq<char>|
            #![trigger states_of(counts_of(*add), t).contains_key(s)]
            states_of(counts_of(*add), t).contains_key(s) implies state_count(
            states_of(counts_or_none(old), t),
            s,
        ) + state_count(states_of(counts_of(*add), t), s) <= u64::MAX by {
            lemma_pairs_to_map_contains(add.pairs(), t);
            let j = choose|j: int| 0 <= j < add.pairs().len() && #[trigger] add.pairs()[j].0 == t;
            lemma_pairs_to_map_index(add.pairs(), j);
            assert(states_fit(states_of(counts_or_none(old), t), add.pairs()[j].1@));
        }
    }
    true
}

/// Every entry of the store is filed under its application's name, with the
/// proxy's instance id.
pub open spec fn store_filed<T>(store: Map<Seq<char>, MetricsView<T>>) -> bool {
    forall|k: Seq<char>|
        #[trigger] store.contains_key(k) ==> store[k].app_name == k && store[k].instance_id
            == proxy_instance_id()
}

/// Merging a report keeps every entry filed under its application's name,
/// with the proxy's instance id; the empty store is so filed.
pub proof fn lemma_merge_keeps_store_filed<T>(store: Map<Seq<char>, MetricsView<T>>, report: MetricsView<T>)
    ensures
        store_filed(Map::<Seq<char>, MetricsView<T>>::empty()),
        store_filed(store) ==> store_filed(merged_store(store, report)),
{
}

/// The store after `reports` are merged in order into an empty store.
pub open spec fn store_after<T>(reports: Seq<MetricsView<T>>) -> Map<Seq<char>, MetricsView<T>>
    decreases reports.len(),
{
    if reports.len() == 0 {
        Map::empty()
    } else {
        merged_store(store_after(reports.drop_last()), reports.last())
    }
}

/// However many reports are merged into a store that starts empty (as it does
/// at start-up and after each upload takes every entry out), every entry is
/// filed under its application's name with the proxy's instance id.
pub proof fn lemma_merged_reports_keep_store_filed<T>(reports: Seq<MetricsView<T>>)
    ensures
        store_filed(store_after(reports)),
    decreases reports.len(),
{
    if reports.len() == 0 {
        lemma_merge_keeps_store_filed(Map::<Seq<char>, MetricsView<T>>::empty(), reports[0]);
    } else {
        lemma_merged_reports_keep_store_filed(reports.drop_last());
        lemma_merge_keeps_store_filed(store_after(reports.drop_last()), reports.last());
    }
}

impl<T> Metrics<T> {
    /// The same metrics, over the time window from `start` to `stop`.
    pub fn with_window(self, start: T, stop: T) -> (r: Metrics<T>)
        ensures
            r@ == (MetricsView { start: start, stop: stop, ..self@ }),
    {
        let Metrics { app_name, instance_id, bucket } = self;
        Metrics {
            app_name,
            instance_id,
            bucket: MetricsBucket { start, stop, toggles: bucket.toggles },
        }
    }
}

/// The metrics aggregated since the last batch was taken, one entry per
/// application, each filed under its application's name.
pub struct MetricsStore<T> {
    apps: StrMap<Metrics<T>>,
}

impl<T> View for MetricsStore<T> {
    type V = Map<Seq<char>, MetricsView<T>>;

    closed spec fn view(&self) -> Map<Seq<char>, MetricsView<T>> {
        self.apps@.map_values(|m: Metrics<T>| m@)
    }
}

impl<T> MetricsStore<T> {
    #[verifier::type_invariant]
    spec fn filed_by_name(self) -> bool {
        forall|k: Seq<char>|
            #[trigger] self.apps@.contains_key(k) ==> self.apps@[k].app_name@ == k
                && self.apps@[k].instance_id@ == proxy_instance_id()
    }

    /// An empty store.
    pub fn new() -> (r: Self)
        ensures
            r@ == Map::<Seq<char>, MetricsView<T>>::empty(),
            store_filed(r@),
    {
        let r = MetricsStore { apps: StrMap::new() };
        assert(r@ =~= Map::<Seq<char>, MetricsView<T>>::empty());
        r
    }

    /// Adds the counts of `report` into the entry of its application; a new
    /// entry takes the report's time window and the instance id `proxy`.
    pub fn merge_report(&mut self, report: Metrics<T>)
        requires
            report_fits(old(self)@, report@),
        ensures
            final(self)@ == merged_store(old(self)@, report@),
            store_filed(final(self)@),
    {
        proof {
            use_type_invariant(&*self);
        }
        let ghost store = self@;
        let ghost rv = report@;
        let mut apps: StrMap<Metrics<T>> = StrMap::new();
        std::mem::swap(&mut apps, &mut self.apps);
        let ghost before = apps@;
        let Metrics { app_name, instance_id: _, bucket } = report;
        let MetricsBucket { start, stop, toggles } = bucket;
        let existing = apps.remove(app_name.as_str());
        let mut entry = match existing {
            Some(e) => e,
            None => {
                let fresh = Metrics {
                    app_name: app_name.clone(),
                    instance_id: "proxy".to_owned(),
                    bucket: MetricsBucket { start, stop, toggles: StrMap::new() },
                };
                assert(counts_of(fresh.bucket.toggles) =~= Map::<Seq<char>, Map<Seq<char>, u64>>::empty());
                fresh
            },
        };
        proof {
            assert(entry@ == entry_for(store, rv));
        }
        add_counts(&mut entry.bucket.toggles, &toggles);
        let ghost merged = entry;
        apps.insert(app_name, entry);
        proof {
            assert(apps@ == before.insert(rv.app_name, merged));
        }
        self.apps = apps;
        proof {
            assert(self@ =~= merged_store(store, rv));
        }
    }

    /// Whether merging `report` keeps every count within `u64`.
    pub fn can_merge(&self, report: &Metrics<T>) -> (r: bool)
        ensures
            r == report_fits(self@, report@),
    {
        let existing: Option<&StrMap<StrMap<u64>>> = match self.apps.get(report.app_name.as_str()) {
            Some(e) => Some(&e.bucket.toggles),
            None => None,
        };
        proof {
            assert(counts_or_none(existing) == entry_for(self@, report@).toggles);
        }
        check_counts_fit(existing, &report.bucket.toggles)
    }

    /// Takes out every entry, leaving the store empty: each application's
    /// metrics come out once, as they were aggregated.
    pub fn take_all(&mut self) -> (r: Vec<Metrics<T>>)
        ensures
            final(self)@ == Map::<Seq<char>, MetricsView<T>>::empty(),
            r@.len() == old(self)@.len(),
            forall|i: int|
                #![trigger r@[i]]
                0 <= i < r@.len() ==> old(self)@.contains_key(r@[i].app_name@) && old(
                    self,
                )@[r@[i].app_name@] == r@[i]@,
            forall|i: int, j: int|
                #![trigger r@[i], r@[j]]
                0 <= i < r@.len() && 0 <= j < r@.len() && i != j ==> r@[i].app_name@
                    != r@[j].app_name@,
            forall|k: Seq<char>|
                #[trigger] old(self)@.contains_key(k) ==> exists|i: int|
                    0 <= i < r@.len() && #[trigger] r@[i].app_name@ == k,
            store_filed(final(self)@),
    {
        proof {
            use_type_invariant(&*self);
        }
        let ghost store = self@;
        let mut apps: StrMap<Metrics<T>> = StrMap::new();
        std::mem::swap(&mut apps, &mut self.apps);
        proof {
            assert(self@ =~= Map::<Seq<char>, MetricsView<T>>::empty());
        }
        let ghost amap = apps@;
        let mut entries = apps.into_entries();
        let ghost orig = entries@;
        proof {
            lemma_pairs_to_map_len(entries_view(orig));
        }
        let mut out: Vec<Metrics<T>> = Vec::new();
        let n = entries.len();
        while entries.len() > 0
            invariant
                n == orig.len(),
                out@.len() + entries@.len() == n,
                entries@ == orig.skip(out@.len() as int),
                forall|i: int| #![trigger out@[i]] 0 <= i < out@.len() ==> out@[i] == orig[i].1,
            decreases entries@.len(),
        {
            let ghost k = out@.len();
            let (_, m) = entries.remove(0);
            out.push(m);
            proof {
                assert(entries@ =~= orig.skip((k + 1) as int));
            }
        }
        proof {
            let ev = entries_view(orig);
            assert forall|i: int| 0 <= i < out@.len() implies store.contains_key(#[trigger] out@[i].app_name@)
                && store[out@[i].app_name@] == out@[i]@ by {
                assert(ev[i] == (orig[i].0@, orig[i].1));
                lemma_pairs_to_map_index(ev, i);
                assert(amap.contains_key(orig[i].0@));
            }
            assert forall|i: int, j: int|
                0 <= i < out@.len() && 0 <= j < out@.len() && i != j implies #[trigger] out@[i].app_name@
                    != #[trigger] out@[j].app_name@ by {
                assert(ev[i] == (orig[i].0@, orig[i].1));
                assert(ev[j] == (orig[j].0@, orig[j].1));
                lemma_pairs_to_map_index(ev, i);
                lemma_pairs_to_map_index(ev, j);
            }
            assert(store.dom() =~= amap.dom());
            assert forall|k: Seq<char>| #[trigger] store.contains_key(k) implies exists|i: int|
                0 <= i < out@.len() && #[trigger] out@[i].app_name@ == k by {
                lemma_pairs_to_map_contains(ev, k);
                let i = choose|i: int| 0 <= i < ev.len() && #[trigger] ev[i].0 == k;
                assert(ev[i] == (orig[i].0@, orig[i].1));
                lemma_pairs_to_map_index(ev, i);
                assert(out@[i].app_name@ == k);
            }
        }
        out
    }
}

/// Calls `unleash_api_client::api::Metrics::endpoint`, which formats
/// `{api_url}/client/metrics`: the result is `api_url` followed by
/// `/client/metrics`.
#[verifier::external_body]
fn metrics_endpoint(api_url: &str) -> (r: String)
    ensures
        r@ == api_url@ + "/client/metrics"@,
{
    unleash_api_client::api::Metrics::endpoint(api_url)
}

/// What is sent upstream after an interval: each application's metrics, to
/// the metrics endpoint of the API.
pub struct UploadBatch<T> {
    pub endpoint: String,
    pub metrics: Vec<Metrics<T>>,
}

/// The upload of a batch taken from the store: every application's metrics
/// over the window from `start` to `stop`, to the metrics endpoint of the API
/// at `api_url`.
pub fn upload_batch<T: Copy>(api_url: &str, batch: Vec<Metrics<T>>, start: T, stop: T) -> (r:
    UploadBatch<T>)
    ensures
        r.endpoint@ == api_url@ + "/client/metrics"@,
        r.metrics@.len() == batch@.len(),
        forall|i: int|
            #![trigger r.metrics@[i]]
            0 <= i < batch@.len() ==> r.metrics@[i]@ == (MetricsView {
                start: start,
                stop: stop,
                ..batch@[i]@
            }),
{
    let endpoint = metrics_endpoint(api_url);
    let ghost orig = batch@;
    let mut rest = batch;
    let mut out: Vec<Metrics<T>> = Vec::new();
    while rest.len() > 0
        invariant
            out@.len() + rest@.len() == orig.len(),
            rest@ == orig.skip(out@.len() as int),
            forall|i: int|
                #![trigger out@[i]]
                0 <= i < out@.len() ==> out@[i]@ == (MetricsView {
                    start: start,
                    stop: stop,
                    ..orig[i]@
                }),
        decreases rest@.len(),
    {
        let ghost k = out@.len();
        let m = rest.remove(0);
        out.push(m.with_window(start, stop));
        assert(rest@ =~= orig.skip((k + 1) as int));
    }
    UploadBatch { endpoint, metrics: out }
}

/// Merging a report adds, for every toggle and state, the report's count to
/// the count its application had (zero where there was none); the entries of
/// the other applications stay as they were.
pub proof fn lemma_merge_adds_counts<T>(
    store: Map<Seq<char>, MetricsView<T>>,
    report: MetricsView<T>,
    toggle: Seq<char>,
    state: Seq<char>,
)
    requires
        report_fits(store, report),
    ensures
        merged_store(store, report).contains_key(report.app_name),
        state_count(states_of(merged_store(store, report)[report.app_name].toggles, toggle), state)
            == state_count(states_of(entry_for(store, report).toggles, toggle), state)
            + state_count(states_of(report.toggles, toggle), state),
        forall|k: Seq<char>|
            k != report.app_name ==> (#[trigger] merged_store(store, report).contains_key(k)
                <==> store.contains_key(k)) && (store.contains_key(k) ==> merged_store(
                store,
                report,
            )[k] == store[k]),
{
    let old = entry_for(store, report).toggles;
    let m = merged_counts(old, report.toggles);
    if states_of(report.toggles, toggle).contains_key(state) {
        assert(m.contains_key(toggle));
    }
}

/// Counts that fit in `u64` whichever way three count maps are added.
pub open spec fn three_fit(c: Counts, x: Counts, y: Counts) -> bool {
    forall|t: Seq<char>, s: Seq<char>|
        state_count(states_of(c, t), s) + state_count(states_of(x, t), s) + #[trigger] state_count(
            states_of(y, t),
            s,
        ) <= u64::MAX
}

proof fn lemma_merged_states_commute(
    a: Map<Seq<char>, u64>,
    b: Map<Seq<char>, u64>,
    d: Map<Seq<char>, u64>,
)
    requires
        forall|s: Seq<char>| #[trigger] state_count(a, s) + state_count(b, s) + state_count(d, s) <= u64::MAX,
    ensures
        merged_states(merged_states(a, b), d) == merged_states(merged_states(a, d), b),
{
    assert forall|s: Seq<char>| #![trigger merged_states(merged_states(a, b), d).contains_key(s)]
        merged_states(merged_states(a, b), d).contains_key(s) implies merged_states(
        merged_states(a, b),
        d,
    )[s] == merged_states(merged_states(a, d), b)[s] by {
        assert(state_count(a, s) + state_count(b, s) + state_count(d, s) <= u64::MAX);
    }
    assert(merged_states(merged_states(a, b), d) =~= merged_states(merged_states(a, d), b));
}

/// Adding two count maps into a third gives the same counts in either order,
/// as long as no count leaves `u64`.
pub proof fn lemma_merged_counts_commute(c: Counts, x: Counts, y: Counts)
    requires
        three_fit(c, x, y),
    ensures
        merged_counts(merged_counts(c, x), y) == merged_counts(merged_counts(c, y), x),
{
    let l = merged_counts(merged_counts(c, x), y);
    let r = merged_counts(merged_counts(c, y), x);
    assert forall|t: Seq<char>| #[trigger] l.contains_key(t) implies l[t] == r[t] by {
        let a = states_of(c, t);
        let b = states_of(x, t);
        let d = states_of(y, t);
        assert forall|s: Seq<char>| #[trigger] state_count(a, s) + state_count(b, s) + state_count(d, s)
            <= u64::MAX by {
            assert(state_count(states_of(c, t), s) + state_count(states_of(x, t), s) + state_count(
                states_of(y, t),
                s,
            ) <= u64::MAX);
        }
        lemma_merged_states_commute(a, b, d);
        assert(states_of(merged_counts(c, x), t) =~= merged_states(a, b));
        assert(states_of(merged_counts(c, y), t) =~= merged_states(a, d));
    }
    assert(l =~= r);
}

/// Merging two reports into the store gives every application the same
/// counts in either order, as long as no count leaves `u64` in either order.
pub proof fn lemma_merge_reports_commute<T>(
    store: Map<Seq<char>, MetricsView<T>>,
    a: MetricsView<T>,
    b: MetricsView<T>,
)
    requires
        report_fits(store, a),
        report_fits(merged_store(store, a), b),
        report_fits(store, b),
        report_fits(merged_store(store, b), a),
    ensures
        merged_store(merged_store(store, a), b).dom() == merged_store(merged_store(store, b), a).dom(),
        forall|k: Seq<char>|
            #[trigger] merged_store(merged_store(store, a), b).contains_key(k) ==> merged_store(
                merged_store(store, a),
                b,
            )[k].toggles == merged_store(merged_store(store, b), a)[k].toggles,
{
    let ab = merged_store(merged_store(store, a), b);
    let ba = merged_store(merged_store(store, b), a);
    assert(ab.dom() =~= ba.dom());
    if a.app_name == b.app_name {
        let c = entry_for(store, a).toggles;
        assert(entry_for(store, b).toggles == c);
        assert forall|t: Seq<char>, s: Seq<char>|
            state_count(states_of(c, t), s) + state_count(states_of(a.toggles, t), s)
                + #[trigger] state_count(states_of(b.toggles, t), s) <= u64::MAX by {
            let m = merged_counts(c, a.toggles);
            assert(entry_for(merged_store(store, a), b).toggles == m);
            if states_of(b.toggles, t).contains_key(s) {
                assert(states_of(b.toggles, t).contains_key(s));
                assert(state_count(states_of(m, t), s) + state_count(states_of(b.toggles, t), s)
                    <= u64::MAX);
                if states_of(a.toggles, t).contains_key(s) || states_of(c, t).contains_key(s) {
                    assert(m.contains_key(t) || !has_states(states_of(a.toggles, t)));
                    if m.contains_key(t) {
                        assert(state_count(states_of(m, t), s) == state_count(states_of(c, t), s)
                            + state_count(states_of(a.toggles, t), s));
                    }
                }
            }
        }
        lemma_merged_counts_commute(c, a.toggles, b.toggles);
        assert(entry_for(merged_store(store, a), b).toggles == merged_counts(c, a.toggles));
        assert(entry_for(merged_store(store, b), a).toggles == merged_counts(c, b.toggles));
    }
}

} // verus!
