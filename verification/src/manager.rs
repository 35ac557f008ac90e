//! The alert manager: runs the rule evaluators once per cycle,
//! deduplicates candidates, tracks alert lifecycle, auto-resolves cleared
//! conditions with hysteresis, and bounds the alert history.

use vstd::prelude::*;
use vstd::string::StringExecFns;

use crate::alert::{Alert, AlertCategory, AlertId, AlertLevel, AlertStatus, AlertView};
use crate::rules::{alert_of_candidate, kubernetes_candidates, kubevirt_candidates, realises, system_candidates, Candidate, KubeVirtRule, KubernetesRule, SystemAlert, SystemMetricsRule};
use crate::snapshot::{K8sClusterInfo, KubeVirtInfo, SystemMetrics};

verus! {

/// One record of the deduplication tracker: the category and source of
/// the last admitted alert for that key, and when it was admitted.
#[derive(Debug)]
pub struct DedupEntry {
    pub category: AlertCategory,
    pub source: String,
    pub at_ms: i64,
}

/// Mathematical image of [`DedupEntry`].
#[verifier::ext_equal]
pub struct DedupEntryView {
    pub category: AlertCategory,
    pub source: Seq<char>,
    pub at_ms: i64,
}

impl View for DedupEntry {
    type V = DedupEntryView;

    open spec fn view(&self) -> DedupEntryView {
        DedupEntryView { category: self.category, source: self.source@, at_ms: self.at_ms }
    }
}

/// The admission time recorded for the key `(category, source)`: the
/// first matching record wins.
pub open spec fn dedup_find(
    entries: Seq<DedupEntryView>,
    category: AlertCategory,
    source: Seq<char>,
) -> Option<i64>
    decreases entries.len(),
{
    if entries.len() == 0 {
        Option::None
    } else if entries[0].category == category && entries[0].source == source {
        Option::Some(entries[0].at_ms)
    } else {
        dedup_find(entries.skip(1), category, source)
    }
}

/// The tracker after recording an admission for `(category, source)` at
/// `now_ms`: the first matching record is refreshed, or a new record is
/// appended.
pub open spec fn dedup_record(
    entries: Seq<DedupEntryView>,
    category: AlertCategory,
    source: Seq<char>,
    now_ms: i64,
) -> Seq<DedupEntryView>
    decreases entries.len(),
{
    if entries.len() == 0 {
        seq![DedupEntryView { category, source, at_ms: now_ms }]
    } else if entries[0].category == category && entries[0].source == source {
        entries.update(0, DedupEntryView { category, source, at_ms: now_ms })
    } else {
        seq![entries[0]] + dedup_record(entries.skip(1), category, source, now_ms)
    }
}

/// Mathematical image of [`AlertManager`].
#[verifier::ext_equal]
pub struct ManagerView {
    pub active: Seq<AlertView>,
    pub history: Seq<AlertView>,
    pub system_alerts_config: SystemAlert,
    pub kubernetes_enabled: bool,
    pub kubevirt_enabled: bool,
    pub last_triggered: Seq<DedupEntryView>,
    pub max_history_size: usize,
    pub dedup_window_seconds: i64,
}

/// View of a sequence of alerts.
pub open spec fn alerts_view(v: Seq<Alert>) -> Seq<AlertView> {
    v.map_values(|a: Alert| a@)
}

/// Orchestrates one evaluation cycle and answers queries and commands
/// from the rendering layer. State is purely in memory; configuration is
/// fixed at construction.
pub struct AlertManager {
    active_alerts: Vec<Alert>,
    history: Vec<Alert>,
    system_alerts_config: SystemAlert,
    kubernetes_enabled: bool,
    kubevirt_enabled: bool,
    last_triggered: Vec<DedupEntry>,
    max_history_size: usize,
    dedup_window_seconds: i64,
}

impl View for AlertManager {
    type V = ManagerView;

    closed spec fn view(&self) -> ManagerView {
        ManagerView {
            active: alerts_view(self.active_alerts@),
            history: alerts_view(self.history@),
            system_alerts_config: self.system_alerts_config,
            kubernetes_enabled: self.kubernetes_enabled,
            kubevirt_enabled: self.kubevirt_enabled,
            last_triggered: self.last_triggered@.map_values(|e: DedupEntry| e@),
            max_history_size: self.max_history_size,
            dedup_window_seconds: self.dedup_window_seconds,
        }
    }
}

/// The state a fresh manager starts in: everything empty, default
/// thresholds, both cluster evaluators enabled, a history cap of 1000,
/// and a dedup window of 300 seconds.
pub open spec fn initial_manager() -> ManagerView {
    ManagerView {
        active: Seq::empty(),
        history: Seq::empty(),
        system_alerts_config: crate::rules::default_system_alert(),
        kubernetes_enabled: true,
        kubevirt_enabled: true,
        last_triggered: Seq::empty(),
        max_history_size: 1000,
        dedup_window_seconds: 300,
    }
}

impl AlertManager {
    /// A manager with empty state and the default configuration.
    pub fn new() -> (r: Self)
        ensures
            r@ == initial_manager(),
    {
        let r = AlertManager {
            active_alerts: Vec::new(),
            history: Vec::new(),
            system_alerts_config: SystemAlert::default(),
            kubernetes_enabled: true,
            kubevirt_enabled: true,
            last_triggered: Vec::new(),
            max_history_size: 1000,
            dedup_window_seconds: 300,
        };
        proof {
            assert(r@ =~~= initial_manager());
        }
        r
    }

    /// Replaces the system threshold configuration.
    pub fn with_system_config(self, config: SystemAlert) -> (r: Self)
        ensures
            r@ == (ManagerView { system_alerts_config: config, ..self@ }),
    {
        let mut m = self;
        m.system_alerts_config = config;
        m
    }

    /// Enables or disables the Kubernetes evaluator.
    pub fn with_kubernetes_enabled(self, enabled: bool) -> (r: Self)
        ensures
            r@ == (ManagerView { kubernetes_enabled: enabled, ..self@ }),
    {
        let mut m = self;
        m.kubernetes_enabled = enabled;
        m
    }

    /// Enables or disables the KubeVirt evaluator.
    pub fn with_kubevirt_enabled(self, enabled: bool) -> (r: Self)
        ensures
            r@ == (ManagerView { kubevirt_enabled: enabled, ..self@ }),
    {
        let mut m = self;
        m.kubevirt_enabled = enabled;
        m
    }
}

/// First matching records refresh in place: recording a key hit at
/// index `j` updates exactly that record.
proof fn lemma_dedup_record_hit(
    s: Seq<DedupEntryView>,
    category: AlertCategory,
    source: Seq<char>,
    now_ms: i64,
    j: int,
)
    requires
        0 <= j < s.len(),
        s[j].category == category && s[j].source == source,
        forall|k: int| 0 <= k < j ==> !(#[trigger] s[k].category == category && s[k].source == source),
    ensures
        dedup_record(s, category, source, now_ms) =~= s.update(
            j,
            DedupEntryView { category, source, at_ms: now_ms },
        ),
    decreases j,
{
    if j == 0 {
    } else {
        assert(!(s[0].category == category && s[0].source == source));
        assert(forall|k: int| 0 <= k < j - 1 ==> s.skip(1)[k] == s[k + 1]);
        lemma_dedup_record_hit(s.skip(1), category, source, now_ms, j - 1);
        assert(dedup_record(s, category, source, now_ms) =~= seq![s[0]] + s.skip(1).update(
            j - 1,
            DedupEntryView { category, source, at_ms: now_ms },
        ));
    }
}

/// Recording a key that no record matches appends a new record.
proof fn lemma_dedup_record_miss(
    s: Seq<DedupEntryView>,
    category: AlertCategory,
    source: Seq<char>,
    now_ms: i64,
)
    requires
        forall|k: int| 0 <= k < s.len() ==> !(#[trigger] s[k].category == category && s[k].source == source),
    ensures
        dedup_record(s, category, source, now_ms) =~= s.push(
            DedupEntryView { category, source, at_ms: now_ms },
        ),
    decreases s.len(),
{
    if s.len() == 0 {
    } else {
        assert(forall|k: int| 0 <= k < s.skip(1).len() ==> s.skip(1)[k] == s[k + 1]);
        lemma_dedup_record_miss(s.skip(1), category, source, now_ms);
    }
}

impl AlertManager {
    /// The admission time on record for `(category, source)`, if any.
    fn dedup_lookup(&self, category: AlertCategory, source: &String) -> (r: Option<i64>)
        ensures
            r == dedup_find(self@.last_triggered, category, source@),
    {
        let ghost all = self@.last_triggered;
        let n = self.last_triggered.len();
        proof {
            assert(all.skip(0) =~= all);
        }
        let mut i: usize = 0;
        while i < n
            invariant
                0 <= i <= n,
                n == self.last_triggered@.len(),
                all == self@.last_triggered,
                forall|k: int| 0 <= k < all.len() ==> all[k] == #[trigger] self.last_triggered@[k]@,
                dedup_find(all, category, source@) == dedup_find(
                    all.skip(i as int),
                    category,
                    source@,
                ),
            decreases n - i,
        {
            let e = &self.last_triggered[i];
            proof {
                assert(all.skip(i as int)[0] == all[i as int]);
                assert(all.skip(i as int).skip(1) =~= all.skip(i as int + 1));
            }
            if e.category == category && e.source.eq(source) {
                return Some(e.at_ms);
            }
            i += 1;
        }
        proof {
            assert(all.skip(n as int) =~= Seq::<DedupEntryView>::empty());
        }
        None
    }

    /// Records an admission for `(category, source)` at `now_ms`.
    fn dedup_mark(&mut self, category: AlertCategory, source: String, now_ms: i64)
        ensures
            final(self)@ == (ManagerView {
                last_triggered: dedup_record(
                    old(self)@.last_triggered,
                    category,
                    source@,
                    now_ms,
                ),
                ..old(self)@
            }),
    {
        let ghost all = old(self)@.last_triggered;
        let ghost m0 = *self;
        let n = self.last_triggered.len();
        let mut i: usize = 0;
        while i < n
            invariant
                0 <= i <= n,
                *self == m0,
                m0 == *old(self),
                all == m0@.last_triggered,
                n == self.last_triggered@.len(),
                all.len() == n as int,
                forall|k: int| 0 <= k < all.len() ==> all[k] == #[trigger] self.last_triggered@[k]@,
                forall|k: int| 0 <= k < i ==> !(#[trigger] all[k].category == category
                    && all[k].source == source@),
            decreases n - i,
        {
            let hit = self.last_triggered[i].category == category
                && self.last_triggered[i].source.eq(&source);
            if hit {
                proof {
                    assert(all[i as int] == self.last_triggered@[i as int]@);
                    assert(all[i as int].category == category);
                    assert(all[i as int].source == source@);
                }
                let mut e = self.last_triggered.remove(i);
                e.at_ms = now_ms;
                let ghost ev = e@;
                self.last_triggered.insert(i, e);
                proof {
                    lemma_dedup_record_hit(all, category, source@, now_ms, i as int);
                    let s2 = self.last_triggered@.map_values(|x: DedupEntry| x@);
                    let target = all.update(
                        i as int,
                        DedupEntryView { category, source: source@, at_ms: now_ms },
                    );
                    assert(ev == DedupEntryView { category, source: source@, at_ms: now_ms });
                    assert forall|k: int| 0 <= k < s2.len() implies s2[k] == target[k] by {
                        assert(s2[k] == self.last_triggered@[k]@);
                        if k < i as int {
                            assert(self.last_triggered@[k] == m0.last_triggered@[k]);
                        } else if k == i as int {
                            assert(self.last_triggered@[k] == e);
                        } else {
                            assert(self.last_triggered@[k] == m0.last_triggered@[k]);
                        }
                    }
                    assert(s2 =~= target);
                    assert(self@ =~~= (ManagerView {
                        last_triggered: dedup_record(all, category, source@, now_ms),
                        ..m0@
                    }));
                }
                return;
            }
            proof {
                assert(all[i as int] == self.last_triggered@[i as int]@);
            }
            i += 1;
        }
        self.last_triggered.push(DedupEntry { category, source, at_ms: now_ms });
        proof {
            lemma_dedup_record_miss(all, category, source@, now_ms);
            assert(self.last_triggered@.map_values(|x: DedupEntry| x@) =~= all.push(
                DedupEntryView { category, source: source@, at_ms: now_ms },
            ));
            assert(self@ =~~= (ManagerView {
                last_triggered: dedup_record(all, category, source@, now_ms),
                ..old(self)@
            }));
        }
    }
}

/// Whether a candidate under `(category, source)` is suppressed at
/// `now_ms`: a previous admission for the key is on record and the
/// elapsed time is still inside the dedup window.
pub open spec fn suppressed(
    m: ManagerView,
    category: AlertCategory,
    source: Seq<char>,
    now_ms: i64,
) -> bool {
    match dedup_find(m.last_triggered, category, source) {
        Option::Some(t) => now_ms - t < m.dedup_window_seconds * 1000,
        Option::None => false,
    }
}

/// The active set without any alert under identifier `id`.
pub open spec fn drop_id(s: Seq<AlertView>, id: AlertId) -> Seq<AlertView> {
    s.filter(|x: AlertView| x.id != id)
}

/// The active set after inserting `a` under its identifier.
pub open spec fn insert_active(s: Seq<AlertView>, a: AlertView) -> Seq<AlertView> {
    drop_id(s, a.id).push(a)
}

/// One admission step: a suppressed alert is discarded entirely; an
/// admitted one enters the active set and refreshes the dedup record
/// for its key.
pub open spec fn admit_alert(m: ManagerView, a: AlertView, now_ms: i64) -> ManagerView {
    if suppressed(m, a.category, a.metadata.source, now_ms) {
        m
    } else {
        ManagerView {
            active: insert_active(m.active, a),
            last_triggered: dedup_record(
                m.last_triggered,
                a.category,
                a.metadata.source,
                now_ms,
            ),
            ..m
        }
    }
}

/// Filtering an identifier out of a sequence extended by one alert
/// keeps the new alert exactly when its identifier differs.
pub proof fn lemma_drop_id_snoc(s: Seq<AlertView>, x: AlertView, id: AlertId)
    ensures
        drop_id(s.push(x), id) == if x.id != id {
            drop_id(s, id).push(x)
        } else {
            drop_id(s, id)
        },
{
    reveal_with_fuel(Seq::<AlertView>::filter, 2);
    assert(s.push(x).drop_last() =~= s);
    assert(s.push(x).last() == x);
}

impl AlertManager {
    /// Admits one candidate alert, unless a recent admission for the
    /// same category and source suppresses it.
    fn add_alert_with_dedup(&mut self, alert: Alert, now_ms: i64)
        ensures
            final(self)@ == admit_alert(old(self)@, alert@, now_ms),
    {
        let hit = self.dedup_lookup(alert.category, &alert.metadata.source);
        let suppress = match hit {
            Some(t) => (now_ms as i128) - (t as i128) < (self.dedup_window_seconds as i128)
                * 1000,
            None => false,
        };
        if suppress {
            return;
        }
        self.dedup_mark(alert.category, alert.metadata.source.clone(), now_ms);
        let ghost mid = self@;
        let ghost orig = mid.active;
        let aid = alert.id;
        proof {
            assert(orig.skip(0) =~= orig);
            assert(orig.take(0) =~= Seq::<AlertView>::empty());
        }
        let mut kept: Vec<Alert> = Vec::new();
        while self.active_alerts.len() > 0
            invariant
                aid == alert.id,
                self.active_alerts@.len() <= orig.len(),
                self@ =~~= (ManagerView { active: self@.active, ..mid }),
                orig == mid.active,
                alerts_view(self.active_alerts@) == orig.skip(
                    orig.len() - self.active_alerts@.len(),
                ),
                alerts_view(kept@) == drop_id(
                    orig.take(orig.len() - self.active_alerts@.len()),
                    aid,
                ),
            decreases self.active_alerts@.len(),
        {
            let ghost i = orig.len() - self.active_alerts@.len();
            let ghost rem0 = self.active_alerts@;
            let x = self.active_alerts.remove(0);
            proof {
                assert(alerts_view(rem0) == orig.skip(i));
                assert(alerts_view(rem0)[0] == x@);
                assert(x@ == orig[i]);
                assert forall|k: int| 0 <= k < self.active_alerts@.len() implies
                    alerts_view(self.active_alerts@)[k] == orig.skip(i + 1)[k] by {
                    assert(self.active_alerts@[k] == rem0[k + 1]);
                    assert(alerts_view(rem0)[k + 1] == orig.skip(i)[k + 1]);
                }
                assert(alerts_view(self.active_alerts@) =~= orig.skip(i + 1));
                assert(orig.take(i + 1) =~= orig.take(i).push(orig[i]));
                lemma_drop_id_snoc(orig.take(i), orig[i], aid);
            }
            if !(x.id == aid) {
                let ghost kept0 = kept@;
                kept.push(x);
                proof {
                    assert(alerts_view(kept@) =~= alerts_view(kept0).push(x@));
                    assert(alerts_view(kept@) =~= drop_id(orig.take(i + 1), aid));
                }
            } else {
                proof {
                    assert(alerts_view(kept@) =~= drop_id(orig.take(i + 1), aid));
                }
            }
        }
        proof {
            assert(orig.take(orig.len() as int) =~= orig);
            assert(alerts_view(kept@) == drop_id(orig, aid));
        }
        self.active_alerts = kept;
        let ghost kept1 = self.active_alerts@;
        self.active_alerts.push(alert);
        proof {
            assert(alerts_view(self.active_alerts@) =~= alerts_view(kept1).push(alert@));
            assert(self@.active =~= insert_active(old(self)@.active, alert@));
            assert(self@ =~~= admit_alert(old(self)@, alert@, now_ms));
        }
    }
}

/// The per-source-tag auto-resolve predicate, judged against the latest
/// snapshots with a hysteresis margin below the original trigger
/// threshold. Unrecognized source tags, and alerts without threshold
/// metadata, never resolve automatically.
pub open spec fn should_resolve(a: AlertView, sys: SystemMetrics, k8s: K8sClusterInfo) -> bool {
    if a.metadata.source == "cpu"@ {
        match a.metadata.threshold {
            Option::Some(t) => (sys.cpu_usage as int) < t - 5,
            Option::None => false,
        }
    } else if a.metadata.source == "memory"@ {
        match a.metadata.threshold {
            Option::Some(t) => crate::snapshot::memory_percent(sys) < t - 5,
            Option::None => false,
        }
    } else if a.metadata.source == "disk"@ {
        match a.metadata.threshold {
            Option::Some(t) => (sys.disk_usage_percent as int) < t - 5,
            Option::None => false,
        }
    } else if a.metadata.source == "load"@ {
        match a.metadata.threshold {
            Option::Some(t) => (sys.load_avg as int) < t - 2,
            Option::None => false,
        }
    } else if a.metadata.source == "k8s-nodes"@ {
        k8s.nodes_ready == k8s.nodes_total && k8s.nodes_total > 0
    } else if a.metadata.source == "k8s-cluster"@ {
        k8s.nodes_total > 0 || k8s.pods_running > 0
    } else {
        false
    }
}

/// The active alerts that stay active under the latest snapshots.
pub open spec fn surviving(
    s: Seq<AlertView>,
    sys: SystemMetrics,
    k8s: K8sClusterInfo,
) -> Seq<AlertView> {
    s.filter(|a: AlertView| !should_resolve(a, sys, k8s))
}

/// The active alerts whose conditions have cleared under the latest
/// snapshots.
pub open spec fn resolving(
    s: Seq<AlertView>,
    sys: SystemMetrics,
    k8s: K8sClusterInfo,
) -> Seq<AlertView> {
    s.filter(|a: AlertView| should_resolve(a, sys, k8s))
}

/// A batch of alerts transitioned to `Resolved` at `now_ms`.
pub open spec fn resolved_all(s: Seq<AlertView>, now_ms: i64) -> Seq<AlertView> {
    s.map_values(|a: AlertView| crate::alert::resolved_view(a, now_ms))
}

/// The auto-resolution pass: cleared alerts leave the active set and are
/// appended to history as `Resolved`, in active-set order.
pub open spec fn resolve_pass(
    m: ManagerView,
    sys: SystemMetrics,
    k8s: K8sClusterInfo,
    now_ms: i64,
) -> ManagerView {
    ManagerView {
        active: surviving(m.active, sys, k8s),
        history: m.history + resolved_all(resolving(m.active, sys, k8s), now_ms),
        ..m
    }
}

/// Splitting off one more alert extends exactly one side of the
/// survive/resolve partition.
pub proof fn lemma_resolve_partition_snoc(
    s: Seq<AlertView>,
    x: AlertView,
    sys: SystemMetrics,
    k8s: K8sClusterInfo,
)
    ensures
        surviving(s.push(x), sys, k8s) == if !should_resolve(x, sys, k8s) {
            surviving(s, sys, k8s).push(x)
        } else {
            surviving(s, sys, k8s)
        },
        resolving(s.push(x), sys, k8s) == if should_resolve(x, sys, k8s) {
            resolving(s, sys, k8s).push(x)
        } else {
            resolving(s, sys, k8s)
        },
{
    reveal_with_fuel(Seq::<AlertView>::filter, 2);
    assert(s.push(x).drop_last() =~= s);
    assert(s.push(x).last() == x);
}

impl AlertManager {
    /// Whether `a` should auto-resolve under the latest snapshots.
    fn should_resolve_alert(a: &Alert, sys: &SystemMetrics, k8s: &K8sClusterInfo) -> (r: bool)
        ensures
            r == should_resolve(a@, *sys, *k8s),
    {
        let src = &a.metadata.source;
        if source_is(src, "cpu") {
            match a.metadata.threshold {
                Some(t) => (sys.cpu_usage as i128) < (t as i128) - 5,
                None => false,
            }
        } else if source_is(src, "memory") {
            match a.metadata.threshold {
                Some(t) => (sys.memory_percent_of() as i128) < (t as i128) - 5,
                None => false,
            }
        } else if source_is(src, "disk") {
            match a.metadata.threshold {
                Some(t) => (sys.disk_usage_percent as i128) < (t as i128) - 5,
                None => false,
            }
        } else if source_is(src, "load") {
            match a.metadata.threshold {
                Some(t) => (sys.load_avg as i128) < (t as i128) - 2,
                None => false,
            }
        } else if source_is(src, "k8s-nodes") {
            k8s.nodes_ready == k8s.nodes_total && k8s.nodes_total > 0
        } else if source_is(src, "k8s-cluster") {
            k8s.nodes_total > 0 || k8s.pods_running > 0
        } else {
            false
        }
    }

    /// Auto-resolves every active alert whose resolve predicate holds
    /// under the latest snapshots, moving it to history as `Resolved`.
    fn auto_resolve_alerts(
        &mut self,
        system_metrics: &SystemMetrics,
        k8s_info: &K8sClusterInfo,
        _kubevirt_info: &KubeVirtInfo,
        now_ms: i64,
    )
        ensures
            final(self)@ == resolve_pass(old(self)@, *system_metrics, *k8s_info, now_ms),
    {
        let ghost orig = self@.active;
        let ghost hist0 = self@.history;
        proof {
            assert(orig.skip(0) =~= orig);
            assert(orig.take(0) =~= Seq::<AlertView>::empty());
            assert(resolved_all(resolving(orig.take(0), *system_metrics, *k8s_info), now_ms)
                =~= Seq::<AlertView>::empty());
            assert(hist0 + Seq::<AlertView>::empty() =~= hist0);
        }
        let mut kept: Vec<Alert> = Vec::new();
        while self.active_alerts.len() > 0
            invariant
                self@ =~~= (ManagerView { active: self@.active, history: self@.history, ..old(self)@ }),
                orig == old(self)@.active,
                hist0 == old(self)@.history,
                self.active_alerts@.len() <= orig.len(),
                alerts_view(self.active_alerts@) == orig.skip(
                    orig.len() - self.active_alerts@.len(),
                ),
                alerts_view(kept@) == surviving(
                    orig.take(orig.len() - self.active_alerts@.len()),
                    *system_metrics,
                    *k8s_info,
                ),
                self@.history == hist0 + resolved_all(
                    resolving(
                        orig.take(orig.len() - self.active_alerts@.len()),
                        *system_metrics,
                        *k8s_info,
                    ),
                    now_ms,
                ),
            decreases self.active_alerts@.len(),
        {
            let ghost i = orig.len() - self.active_alerts@.len();
            let ghost rem0 = self.active_alerts@;
            let mut x = self.active_alerts.remove(0);
            proof {
                assert(alerts_view(rem0)[0] == x@);
                assert(x@ == orig[i]);
                assert forall|k: int| 0 <= k < self.active_alerts@.len() implies
                    alerts_view(self.active_alerts@)[k] == orig.skip(i + 1)[k] by {
                    assert(self.active_alerts@[k] == rem0[k + 1]);
                    assert(alerts_view(rem0)[k + 1] == orig.skip(i)[k + 1]);
                }
                assert(alerts_view(self.active_alerts@) =~= orig.skip(i + 1));
                assert(orig.take(i + 1) =~= orig.take(i).push(orig[i]));
                lemma_resolve_partition_snoc(orig.take(i), orig[i], *system_metrics, *k8s_info);
            }
            if Self::should_resolve_alert(&x, system_metrics, k8s_info) {
                x.resolve(now_ms);
                let ghost h = self@.history;
                self.history.push(x);
                proof {
                    assert(alerts_view(self.history@) =~= h.push(
                        crate::alert::resolved_view(orig[i], now_ms),
                    ));
                    assert(resolved_all(
                        resolving(orig.take(i + 1), *system_metrics, *k8s_info),
                        now_ms,
                    ) =~= resolved_all(
                        resolving(orig.take(i), *system_metrics, *k8s_info),
                        now_ms,
                    ).push(crate::alert::resolved_view(orig[i], now_ms)));
                    assert(self@.history =~= hist0 + resolved_all(
                        resolving(orig.take(i + 1), *system_metrics, *k8s_info),
                        now_ms,
                    ));
                }
            } else {
                let ghost kept0 = kept@;
                kept.push(x);
                proof {
                    assert(alerts_view(kept@) =~= alerts_view(kept0).push(orig[i]));
                    assert(alerts_view(kept@) =~= surviving(
                        orig.take(i + 1),
                        *system_metrics,
                        *k8s_info,
                    ));
                    assert(resolved_all(
                        resolving(orig.take(i + 1), *system_metrics, *k8s_info),
                        now_ms,
                    ) =~= resolved_all(
                        resolving(orig.take(i), *system_metrics, *k8s_info),
                        now_ms,
                    ));
                }
            }
        }
        proof {
            assert(orig.take(orig.len() as int) =~= orig);
        }
        self.active_alerts = kept;
        proof {
            assert(self@ =~~= resolve_pass(old(self)@, *system_metrics, *k8s_info, now_ms));
        }
    }
}

/// The history bounded by the count cap: the oldest entries beyond the
/// cap are dropped, oldest first.
pub open spec fn capped_history(h: Seq<AlertView>, cap: usize) -> Seq<AlertView> {
    if h.len() > cap {
        h.skip(h.len() - cap)
    } else {
        h
    }
}

/// Seven days, in milliseconds: the maximum age of a history entry.
pub open spec fn history_max_age_ms() -> int {
    604800000
}

/// The history without entries whose trigger timestamp is more than
/// seven days before `now_ms`.
pub open spec fn fresh_history(h: Seq<AlertView>, now_ms: i64) -> Seq<AlertView> {
    h.filter(|a: AlertView| a.triggered_at > now_ms - history_max_age_ms())
}

/// The retention pass: the history is first bounded by the count cap,
/// then purged of entries older than seven days.
pub open spec fn cleanup(m: ManagerView, now_ms: i64) -> ManagerView {
    ManagerView {
        history: fresh_history(capped_history(m.history, m.max_history_size), now_ms),
        ..m
    }
}

/// Splitting off one more entry extends the age-filtered history
/// exactly when the entry is young enough.
proof fn lemma_fresh_history_snoc(h: Seq<AlertView>, x: AlertView, now_ms: i64)
    ensures
        fresh_history(h.push(x), now_ms) == if x.triggered_at > now_ms - history_max_age_ms() {
            fresh_history(h, now_ms).push(x)
        } else {
            fresh_history(h, now_ms)
        },
{
    reveal_with_fuel(Seq::<AlertView>::filter, 2);
    assert(h.push(x).drop_last() =~= h);
    assert(h.push(x).last() == x);
}

impl AlertManager {
    /// The retention pass over the history.
    fn cleanup_history(&mut self, now_ms: i64)
        ensures
            final(self)@ == cleanup(old(self)@, now_ms),
    {
        if self.history.len() > self.max_history_size {
            let remove_count = self.history.len() - self.max_history_size;
            let tail = self.history.split_off(remove_count);
            self.history = tail;
            proof {
                assert(alerts_view(self.history@) =~= capped_history(
                    old(self)@.history,
                    old(self)@.max_history_size,
                ));
            }
        }
        let ghost capped = self@.history;
        proof {
            assert(capped == capped_history(old(self)@.history, old(self)@.max_history_size));
            assert(capped.skip(0) =~= capped);
            assert(capped.take(0) =~= Seq::<AlertView>::empty());
        }
        let mut kept: Vec<Alert> = Vec::new();
        while self.history.len() > 0
            invariant
                self@ =~~= (ManagerView { history: self@.history, ..old(self)@ }),
                capped == capped_history(old(self)@.history, old(self)@.max_history_size),
                self.history@.len() <= capped.len(),
                alerts_view(self.history@) == capped.skip(capped.len() - self.history@.len()),
                alerts_view(kept@) == fresh_history(
                    capped.take(capped.len() - self.history@.len()),
                    now_ms,
                ),
            decreases self.history@.len(),
        {
            let ghost i = capped.len() - self.history@.len();
            let ghost rem0 = self.history@;
            let x = self.history.remove(0);
            proof {
                assert(alerts_view(rem0)[0] == x@);
                assert(x@ == capped[i]);
                assert forall|k: int| 0 <= k < self.history@.len() implies
                    alerts_view(self.history@)[k] == capped.skip(i + 1)[k] by {
                    assert(self.history@[k] == rem0[k + 1]);
                    assert(alerts_view(rem0)[k + 1] == capped.skip(i)[k + 1]);
                }
                assert(alerts_view(self.history@) =~= capped.skip(i + 1));
                assert(capped.take(i + 1) =~= capped.take(i).push(capped[i]));
                lemma_fresh_history_snoc(capped.take(i), capped[i], now_ms);
            }
            if (x.triggered_at as i128) > (now_ms as i128) - 604800000 {
                let ghost kept0 = kept@;
                kept.push(x);
                proof {
                    assert(alerts_view(kept@) =~= alerts_view(kept0).push(capped[i]));
                    assert(alerts_view(kept@) =~= fresh_history(capped.take(i + 1), now_ms));
                }
            } else {
                proof {
                    assert(alerts_view(kept@) =~= fresh_history(capped.take(i + 1), now_ms));
                }
            }
        }
        proof {
            assert(capped.take(capped.len() as int) =~= capped);
        }
        self.history = kept;
        proof {
            assert(self@ =~~= cleanup(old(self)@, now_ms));
        }
    }
}

/// The candidates of every enabled evaluator, in the fixed order
/// system, kubernetes, kubevirt.
pub open spec fn all_candidates(
    m: ManagerView,
    sys: SystemMetrics,
    k8s: K8sClusterInfo,
    kv: KubeVirtInfo,
) -> Seq<Candidate> {
    system_candidates(sys, m.system_alerts_config) + kubernetes_candidates(
        k8s,
        m.kubernetes_enabled,
    ) + kubevirt_candidates(kv, m.kubevirt_enabled)
}

/// Admission of a candidate sequence, in order, under a matching
/// sequence of identifier nonces.
pub open spec fn admit_seq(
    m: ManagerView,
    cs: Seq<Candidate>,
    ns: Seq<u32>,
    now_ms: i64,
) -> ManagerView
    decreases cs.len(),
{
    if cs.len() == 0 {
        m
    } else {
        admit_seq(
            admit_alert(m, alert_of_candidate(cs[0], now_ms, ns[0]), now_ms),
            cs.skip(1),
            ns.skip(1),
            now_ms,
        )
    }
}

/// One full evaluation cycle at time `now_ms`: evaluators, dedup
/// admission (under the nonces `ns`), auto-resolution, then history
/// retention.
pub open spec fn cycle(
    m: ManagerView,
    sys: SystemMetrics,
    k8s: K8sClusterInfo,
    kv: KubeVirtInfo,
    now_ms: i64,
    ns: Seq<u32>,
) -> ManagerView {
    cleanup(
        resolve_pass(admit_seq(m, all_candidates(m, sys, k8s, kv), ns, now_ms), sys, k8s, now_ms),
        now_ms,
    )
}

/// Admitting one more candidate is one more admission step.
proof fn lemma_admit_seq_snoc(
    m: ManagerView,
    cs: Seq<Candidate>,
    ns: Seq<u32>,
    c: Candidate,
    nonce: u32,
    now_ms: i64,
)
    requires
        ns.len() == cs.len(),
    ensures
        admit_seq(m, cs.push(c), ns.push(nonce), now_ms) == admit_alert(
            admit_seq(m, cs, ns, now_ms),
            alert_of_candidate(c, now_ms, nonce),
            now_ms,
        ),
    decreases cs.len(),
{
    reveal_with_fuel(admit_seq, 3);
    if cs.len() == 0 {
        assert(cs.push(c)[0] == c);
        assert(ns.push(nonce)[0] == nonce);
        assert(cs.push(c).skip(1) =~= Seq::<Candidate>::empty());
        assert(ns.push(nonce).skip(1) =~= Seq::<u32>::empty());
        assert(admit_seq(m, cs, ns, now_ms) == m);
        let stepped = admit_alert(m, alert_of_candidate(c, now_ms, nonce), now_ms);
        assert(admit_seq(m, cs.push(c), ns.push(nonce), now_ms) == admit_seq(
            stepped,
            cs.push(c).skip(1),
            ns.push(nonce).skip(1),
            now_ms,
        ));
        assert(admit_seq(stepped, Seq::<Candidate>::empty(), Seq::<u32>::empty(), now_ms)
            == stepped);
    } else {
        assert(cs.push(c)[0] == cs[0]);
        assert(ns.push(nonce)[0] == ns[0]);
        assert(cs.push(c).skip(1) =~= cs.skip(1).push(c));
        assert(ns.push(nonce).skip(1) =~= ns.skip(1).push(nonce));
        let m1 = admit_alert(m, alert_of_candidate(cs[0], now_ms, ns[0]), now_ms);
        assert(admit_seq(m, cs.push(c), ns.push(nonce), now_ms) == admit_seq(
            m1,
            cs.skip(1).push(c),
            ns.skip(1).push(nonce),
            now_ms,
        ));
        assert(admit_seq(m, cs, ns, now_ms) == admit_seq(m1, cs.skip(1), ns.skip(1), now_ms));
        lemma_admit_seq_snoc(m1, cs.skip(1), ns.skip(1), c, nonce, now_ms);
    }
}

/// Concatenating realisations realises the concatenated candidates.
proof fn lemma_realises_concat(
    r1: Seq<Alert>,
    r2: Seq<Alert>,
    c1: Seq<Candidate>,
    c2: Seq<Candidate>,
    now_ms: i64,
)
    requires
        realises(r1, c1, now_ms),
        realises(r2, c2, now_ms),
    ensures
        realises(r1 + r2, c1 + c2, now_ms),
{
    assert forall|i: int| 0 <= i < (r1 + r2).len() implies #[trigger] (r1 + r2)[i]@
        == alert_of_candidate((c1 + c2)[i], now_ms, (r1 + r2)[i].id.nonce) by {
        if i < r1.len() {
            assert((r1 + r2)[i] == r1[i]);
            assert((c1 + c2)[i] == c1[i]);
        } else {
            assert((r1 + r2)[i] == r2[i - r1.len()]);
            assert((c1 + c2)[i] == c2[i - c1.len()]);
        }
    }
}

impl AlertManager {
    /// One evaluation cycle at time `now_ms`: runs every enabled
    /// evaluator over the given snapshots, admits the candidates with
    /// deduplication, auto-resolves cleared alerts, and prunes history.
    /// The resulting state is [`cycle`] of the old state, for the
    /// sequence of random identifier nonces that was drawn.
    pub fn evaluate(
        &mut self,
        system_metrics: &SystemMetrics,
        k8s_info: &K8sClusterInfo,
        kubevirt_info: &KubeVirtInfo,
        now_ms: i64,
    )
        ensures
            exists|ns: Seq<u32>|
                final(self)@ == cycle(
                    old(self)@,
                    *system_metrics,
                    *k8s_info,
                    *kubevirt_info,
                    now_ms,
                    ns,
                ),
    {
        let ghost cs = all_candidates(self@, *system_metrics, *k8s_info, *kubevirt_info);
        let ghost c_sys = system_candidates(*system_metrics, self@.system_alerts_config);
        let ghost c_k8s = kubernetes_candidates(*k8s_info, self@.kubernetes_enabled);
        let ghost c_kv = kubevirt_candidates(*kubevirt_info, self@.kubevirt_enabled);

        let system_rule = SystemMetricsRule {
            metrics: *system_metrics,
            config: self.system_alerts_config,
        };
        let mut new_alerts = system_rule.evaluate(now_ms);

        if self.kubernetes_enabled {
            let k8s_rule = KubernetesRule { cluster_info: *k8s_info, enabled: true };
            let ghost n0 = new_alerts@;
            let mut v = k8s_rule.evaluate(now_ms);
            let ghost v0 = v@;
            new_alerts.append(&mut v);
            proof {
                lemma_realises_concat(n0, v0, c_sys, c_k8s, now_ms);
            }
        } else {
            proof {
                assert(new_alerts@ + Seq::<Alert>::empty() =~= new_alerts@);
                assert(c_sys + c_k8s =~= c_sys);
            }
        }
        proof {
            assert(realises(new_alerts@, c_sys + c_k8s, now_ms));
        }

        if self.kubevirt_enabled {
            let kubevirt_rule = KubeVirtRule { kubevirt_info: *kubevirt_info, enabled: true };
            let ghost n0 = new_alerts@;
            let mut v = kubevirt_rule.evaluate(now_ms);
            let ghost v0 = v@;
            new_alerts.append(&mut v);
            proof {
                lemma_realises_concat(n0, v0, c_sys + c_k8s, c_kv, now_ms);
            }
        } else {
            proof {
                assert((c_sys + c_k8s) + c_kv =~= c_sys + c_k8s);
            }
        }
        proof {
            assert(cs == (c_sys + c_k8s) + c_kv);
            assert(realises(new_alerts@, cs, now_ms));
            assert(cs.take(0) =~= Seq::<Candidate>::empty());
        }

        let ghost mut ns: Seq<u32> = Seq::empty();
        while new_alerts.len() > 0
            invariant
                cs == all_candidates(old(self)@, *system_metrics, *k8s_info, *kubevirt_info),
                new_alerts@.len() <= cs.len(),
                realises(new_alerts@, cs.skip(cs.len() - new_alerts@.len()), now_ms),
                ns.len() == cs.len() - new_alerts@.len(),
                self@ == admit_seq(
                    old(self)@,
                    cs.take(cs.len() - new_alerts@.len()),
                    ns,
                    now_ms,
                ),
            decreases new_alerts@.len(),
        {
            let ghost done = cs.len() - new_alerts@.len();
            let ghost rem0 = new_alerts@;
            let a = new_alerts.remove(0);
            let ghost nonce = a.id.nonce;
            proof {
                assert(a == rem0[0]);
                assert(cs.skip(done)[0] == cs[done]);
                assert(a@ == alert_of_candidate(cs[done], now_ms, nonce));
                assert forall|k: int| 0 <= k < new_alerts@.len() implies #[trigger] new_alerts@[k]@
                    == alert_of_candidate(
                    cs.skip(done + 1)[k],
                    now_ms,
                    new_alerts@[k].id.nonce,
                ) by {
                    assert(new_alerts@[k] == rem0[k + 1]);
                    assert(cs.skip(done)[k + 1] == cs[done + 1 + k]);
                    assert(cs.skip(done + 1)[k] == cs[done + 1 + k]);
                    assert(rem0[k + 1]@ == alert_of_candidate(
                        cs.skip(done)[k + 1],
                        now_ms,
                        rem0[k + 1].id.nonce,
                    ));
                }
            }
            self.add_alert_with_dedup(a, now_ms);
            proof {
                lemma_admit_seq_snoc(old(self)@, cs.take(done), ns, cs[done], nonce, now_ms);
                assert(cs.take(done).push(cs[done]) =~= cs.take(done + 1));
                ns = ns.push(nonce);
            }
        }
        proof {
            assert(cs.take(cs.len() as int) =~= cs);
            assert(self@ == admit_seq(old(self)@, cs, ns, now_ms));
        }

        self.auto_resolve_alerts(system_metrics, k8s_info, kubevirt_info, now_ms);
        self.cleanup_history(now_ms);
        proof {
            assert(self@ == cycle(
                old(self)@,
                *system_metrics,
                *k8s_info,
                *kubevirt_info,
                now_ms,
                ns,
            ));
        }
    }
}

/// The number of alerts of severity `level` in a sequence.
pub open spec fn count_level(s: Seq<AlertView>, level: AlertLevel) -> int {
    of_level(s, level).len() as int
}

/// The alerts of severity `level` in a sequence, in order.
pub open spec fn of_level(s: Seq<AlertView>, level: AlertLevel) -> Seq<AlertView> {
    s.filter(|a: AlertView| a.level == level)
}

/// The first alert under identifier `id`, if any.
pub open spec fn find_alert(s: Seq<AlertView>, id: AlertId) -> Option<AlertView>
    decreases s.len(),
{
    if s.len() == 0 {
        Option::None
    } else if s[0].id == id {
        Option::Some(s[0])
    } else {
        find_alert(s.skip(1), id)
    }
}

/// An alert that counts toward the critical indicator: level `Critical`
/// and status exactly `Active` (an acknowledged critical alert does
/// not count).
pub open spec fn is_critical_active(a: AlertView) -> bool {
    a.level == AlertLevel::Critical && a.status == AlertStatus::Active
}

/// Splitting off one more alert extends the per-level selection exactly
/// when the alert has that level.
proof fn lemma_of_level_snoc(s: Seq<AlertView>, x: AlertView, level: AlertLevel)
    ensures
        of_level(s.push(x), level) == if x.level == level {
            of_level(s, level).push(x)
        } else {
            of_level(s, level)
        },
        count_level(s.push(x), level) == count_level(s, level) + if x.level == level {
            1int
        } else {
            0int
        },
{
    reveal_with_fuel(Seq::<AlertView>::filter, 2);
    assert(s.push(x).drop_last() =~= s);
    assert(s.push(x).last() == x);
}

impl AlertManager {
    /// The number of alerts in the active set.
    pub fn active_count(&self) -> (r: usize)
        ensures
            r == self@.active.len(),
    {
        self.active_alerts.len()
    }

    /// Whether the active set is non-empty.
    pub fn has_active_alerts(&self) -> (r: bool)
        ensures
            r == (self@.active.len() > 0),
    {
        self.active_alerts.len() > 0
    }

    /// Whether some active alert is `Critical` and still unacknowledged.
    pub fn has_critical_alerts(&self) -> (r: bool)
        ensures
            r == exists|k: int|
                0 <= k < self@.active.len() && is_critical_active(#[trigger] self@.active[k]),
    {
        let ghost active = self@.active;
        let n = self.active_alerts.len();
        let mut i: usize = 0;
        while i < n
            invariant
                0 <= i <= n,
                n == self.active_alerts@.len(),
                active == self@.active,
                forall|k: int| 0 <= k < i ==> !is_critical_active(#[trigger] active[k]),
            decreases n - i,
        {
            let a = &self.active_alerts[i];
            if a.level.rank() == 3 && matches!(a.status, AlertStatus::Active) {
                proof {
                    assert(a@ == active[i as int]);
                    assert(is_critical_active(active[i as int]));
                }
                return true;
            }
            i += 1;
        }
        false
    }

    /// The number of active alerts of each severity, as
    /// `(critical, error, warning, info)`.
    pub fn get_alert_counts(&self) -> (r: (usize, usize, usize, usize))
        ensures
            r.0 == count_level(self@.active, AlertLevel::Critical),
            r.1 == count_level(self@.active, AlertLevel::Error),
            r.2 == count_level(self@.active, AlertLevel::Warning),
            r.3 == count_level(self@.active, AlertLevel::Info),
    {
        let ghost active = self@.active;
        let mut critical: usize = 0;
        let mut error: usize = 0;
        let mut warning: usize = 0;
        let mut info: usize = 0;
        let n = self.active_alerts.len();
        proof {
            assert(active.take(0) =~= Seq::<AlertView>::empty());
        }
        let mut i: usize = 0;
        while i < n
            invariant
                0 <= i <= n,
                n == self.active_alerts@.len(),
                active == self@.active,
                critical <= i && error <= i && warning <= i && info <= i,
                critical == count_level(active.take(i as int), AlertLevel::Critical),
                error == count_level(active.take(i as int), AlertLevel::Error),
                warning == count_level(active.take(i as int), AlertLevel::Warning),
                info == count_level(active.take(i as int), AlertLevel::Info),
            decreases n - i,
        {
            proof {
                assert(active.take(i + 1) =~= active.take(i as int).push(active[i as int]));
                lemma_of_level_snoc(active.take(i as int), active[i as int], AlertLevel::Critical);
                lemma_of_level_snoc(active.take(i as int), active[i as int], AlertLevel::Error);
                lemma_of_level_snoc(active.take(i as int), active[i as int], AlertLevel::Warning);
                lemma_of_level_snoc(active.take(i as int), active[i as int], AlertLevel::Info);
            }
            match self.active_alerts[i].level {
                AlertLevel::Critical => { critical = critical + 1; },
                AlertLevel::Error => { error = error + 1; },
                AlertLevel::Warning => { warning = warning + 1; },
                AlertLevel::Info => { info = info + 1; },
            }
            i += 1;
        }
        proof {
            assert(active.take(n as int) =~= active);
        }
        (critical, error, warning, info)
    }

    /// The alert history, oldest first.
    pub fn get_history(&self) -> (r: &Vec<Alert>)
        ensures
            alerts_view(r@) == self@.history,
    {
        &self.history
    }

    /// The first active alert under `id`, if any.
    pub fn get_alert(&self, id: &AlertId) -> (r: Option<&Alert>)
        ensures
            match r {
                Option::Some(a) => find_alert(self@.active, *id) == Option::Some(a@),
                Option::None => find_alert(self@.active, *id) is None,
            },
    {
        let ghost active = self@.active;
        let n = self.active_alerts.len();
        proof {
            assert(active.skip(0) =~= active);
        }
        let mut i: usize = 0;
        while i < n
            invariant
                0 <= i <= n,
                n == self.active_alerts@.len(),
                active == self@.active,
                find_alert(active, *id) == find_alert(active.skip(i as int), *id),
            decreases n - i,
        {
            proof {
                assert(active.skip(i as int)[0] == active[i as int]);
                assert(active.skip(i as int).skip(1) =~= active.skip(i as int + 1));
            }
            let a = &self.active_alerts[i];
            if a.id == *id {
                return Some(a);
            }
            i += 1;
        }
        proof {
            assert(active.skip(n as int) =~= Seq::<AlertView>::empty());
        }
        None
    }

    /// The active alerts of severity `level`, in active-set order.
    pub fn get_alerts_by_level(&self, level: AlertLevel) -> (r: Vec<&Alert>)
        ensures
            refs_view(r@) == of_level(self@.active, level),
    {
        let ghost active = self@.active;
        let mut out: Vec<&Alert> = Vec::new();
        let n = self.active_alerts.len();
        proof {
            assert(active.take(0) =~= Seq::<AlertView>::empty());
            assert(refs_view(out@) =~= of_level(active.take(0), level));
        }
        let mut i: usize = 0;
        while i < n
            invariant
                0 <= i <= n,
                n == self.active_alerts@.len(),
                active == self@.active,
                refs_view(out@) == of_level(active.take(i as int), level),
            decreases n - i,
        {
            proof {
                assert(active.take(i + 1) =~= active.take(i as int).push(active[i as int]));
                lemma_of_level_snoc(active.take(i as int), active[i as int], level);
            }
            let a = &self.active_alerts[i];
            if matches_level(a, level) {
                let ghost out0 = out@;
                out.push(a);
                proof {
                    assert(a@ == active[i as int]);
                    assert(refs_view(out@) =~= refs_view(out0).push(active[i as int]));
                    assert(refs_view(out@) =~= of_level(active.take(i + 1), level));
                }
            } else {
                proof {
                    assert(refs_view(out@) =~= of_level(active.take(i + 1), level));
                }
            }
            i += 1;
        }
        proof {
            assert(active.take(n as int) =~= active);
        }
        out
    }
}

/// View of a sequence of borrowed alerts.
pub open spec fn refs_view(v: Seq<&Alert>) -> Seq<AlertView> {
    v.map_values(|a: &Alert| a@)
}

/// The active set with the first alert under `id` acknowledged at
/// `now_ms`; untouched if `id` is absent.
pub open spec fn ack_first(s: Seq<AlertView>, id: AlertId, now_ms: i64) -> Seq<AlertView>
    decreases s.len(),
{
    if s.len() == 0 {
        s
    } else if s[0].id == id {
        seq![crate::alert::acknowledged_view(s[0], now_ms)] + s.skip(1)
    } else {
        seq![s[0]] + ack_first(s.skip(1), id, now_ms)
    }
}

/// The active set without the first alert under `id`.
pub open spec fn remove_first(s: Seq<AlertView>, id: AlertId) -> Seq<AlertView>
    decreases s.len(),
{
    if s.len() == 0 {
        s
    } else if s[0].id == id {
        s.skip(1)
    } else {
        seq![s[0]] + remove_first(s.skip(1), id)
    }
}

/// A batch of alerts transitioned to `Dismissed`.
pub open spec fn dismissed_batch(s: Seq<AlertView>) -> Seq<AlertView> {
    s.map_values(|a: AlertView| crate::alert::dismissed_view(a))
}

/// Acknowledging a first match at index `j` updates exactly that alert.
pub proof fn lemma_ack_first_hit(s: Seq<AlertView>, id: AlertId, now_ms: i64, j: int)
    requires
        0 <= j < s.len(),
        s[j].id == id,
        forall|k: int| 0 <= k < j ==> (#[trigger] s[k].id) != id,
    ensures
        ack_first(s, id, now_ms) =~= s.update(j, crate::alert::acknowledged_view(s[j], now_ms)),
    decreases j,
{
    if j == 0 {
    } else {
        assert(forall|k: int| 0 <= k < j - 1 ==> s.skip(1)[k] == s[k + 1]);
        lemma_ack_first_hit(s.skip(1), id, now_ms, j - 1);
    }
}

/// Acknowledging an absent identifier changes nothing.
pub proof fn lemma_ack_first_miss(s: Seq<AlertView>, id: AlertId, now_ms: i64)
    requires
        forall|k: int| 0 <= k < s.len() ==> (#[trigger] s[k].id) != id,
    ensures
        ack_first(s, id, now_ms) =~= s,
    decreases s.len(),
{
    if s.len() > 0 {
        assert(forall|k: int| 0 <= k < s.skip(1).len() ==> s.skip(1)[k] == s[k + 1]);
        lemma_ack_first_miss(s.skip(1), id, now_ms);
    }
}

/// Removing a first match at index `j` removes exactly that alert.
pub proof fn lemma_remove_first_hit(s: Seq<AlertView>, id: AlertId, j: int)
    requires
        0 <= j < s.len(),
        s[j].id == id,
        forall|k: int| 0 <= k < j ==> (#[trigger] s[k].id) != id,
    ensures
        remove_first(s, id) =~= s.remove(j),
    decreases j,
{
    if j == 0 {
    } else {
        assert(forall|k: int| 0 <= k < j - 1 ==> s.skip(1)[k] == s[k + 1]);
        lemma_remove_first_hit(s.skip(1), id, j - 1);
    }
}

/// Removing an absent identifier changes nothing.
pub proof fn lemma_remove_first_miss(s: Seq<AlertView>, id: AlertId)
    requires
        forall|k: int| 0 <= k < s.len() ==> (#[trigger] s[k].id) != id,
    ensures
        remove_first(s, id) =~= s,
    decreases s.len(),
{
    if s.len() > 0 {
        assert(forall|k: int| 0 <= k < s.skip(1).len() ==> s.skip(1)[k] == s[k + 1]);
        lemma_remove_first_miss(s.skip(1), id);
    }
}

/// A first match at index `j` is what lookup finds.
pub proof fn lemma_find_alert_hit(s: Seq<AlertView>, id: AlertId, j: int)
    requires
        0 <= j < s.len(),
        s[j].id == id,
        forall|k: int| 0 <= k < j ==> (#[trigger] s[k].id) != id,
    ensures
        find_alert(s, id) == Option::Some(s[j]),
    decreases j,
{
    if j == 0 {
    } else {
        assert(forall|k: int| 0 <= k < j - 1 ==> s.skip(1)[k] == s[k + 1]);
        lemma_find_alert_hit(s.skip(1), id, j - 1);
    }
}

/// An absent identifier is not found.
pub proof fn lemma_find_alert_miss(s: Seq<AlertView>, id: AlertId)
    requires
        forall|k: int| 0 <= k < s.len() ==> (#[trigger] s[k].id) != id,
    ensures
        find_alert(s, id) is None,
    decreases s.len(),
{
    if s.len() > 0 {
        assert(forall|k: int| 0 <= k < s.skip(1).len() ==> s.skip(1)[k] == s[k + 1]);
        lemma_find_alert_miss(s.skip(1), id);
    }
}

impl AlertManager {
    /// Acknowledges the first active alert under `id` at `now_ms`; the
    /// transition applies only to an alert in status `Active`, and a
    /// missing identifier is a silent no-op.
    pub fn acknowledge_alert(&mut self, id: &AlertId, now_ms: i64)
        ensures
            final(self)@ == (ManagerView {
                active: ack_first(old(self)@.active, *id, now_ms),
                ..old(self)@
            }),
    {
        let ghost m0 = *self;
        let ghost active0 = self@.active;
        let n = self.active_alerts.len();
        let mut i: usize = 0;
        while i < n
            invariant
                0 <= i <= n,
                *self == m0,
                m0 == *old(self),
                active0 == m0@.active,
                n == self.active_alerts@.len(),
                forall|k: int| 0 <= k < i ==> (#[trigger] active0[k].id) != *id,
            decreases n - i,
        {
            proof {
                assert(active0[i as int] == self.active_alerts@[i as int]@);
            }
            if self.active_alerts[i].id == *id {
                let mut a = self.active_alerts.remove(i);
                a.acknowledge(now_ms);
                self.active_alerts.insert(i, a);
                proof {
                    lemma_ack_first_hit(active0, *id, now_ms, i as int);
                    let s2 = alerts_view(self.active_alerts@);
                    let target = active0.update(
                        i as int,
                        crate::alert::acknowledged_view(active0[i as int], now_ms),
                    );
                    assert forall|k: int| 0 <= k < s2.len() implies s2[k] == target[k] by {
                        assert(s2[k] == self.active_alerts@[k]@);
                        if k < i as int {
                            assert(self.active_alerts@[k] == m0.active_alerts@[k]);
                        } else if k > i as int {
                            assert(self.active_alerts@[k] == m0.active_alerts@[k]);
                        }
                    }
                    assert(s2 =~= target);
                    assert(self@ =~~= (ManagerView {
                        active: ack_first(active0, *id, now_ms),
                        ..m0@
                    }));
                }
                return;
            }
            i += 1;
        }
        proof {
            lemma_ack_first_miss(active0, *id, now_ms);
            assert(self@ =~~= (ManagerView { active: ack_first(active0, *id, now_ms), ..m0@ }));
        }
    }

    /// Removes the first active alert under `id` regardless of its
    /// current status, marks it `Dismissed`, and appends it to history;
    /// a missing identifier is a silent no-op.
    pub fn dismiss_alert(&mut self, id: &AlertId)
        ensures
            final(self)@ == match find_alert(old(self)@.active, *id) {
                Option::Some(a) => (ManagerView {
                    active: remove_first(old(self)@.active, *id),
                    history: old(self)@.history.push(crate::alert::dismissed_view(a)),
                    ..old(self)@
                }),
                Option::None => old(self)@,
            },
    {
        let ghost m0 = *self;
        let ghost active0 = self@.active;
        let n = self.active_alerts.len();
        let mut i: usize = 0;
        while i < n
            invariant
                0 <= i <= n,
                *self == m0,
                m0 == *old(self),
                active0 == m0@.active,
                n == self.active_alerts@.len(),
                forall|k: int| 0 <= k < i ==> (#[trigger] active0[k].id) != *id,
            decreases n - i,
        {
            proof {
                assert(active0[i as int] == self.active_alerts@[i as int]@);
            }
            if self.active_alerts[i].id == *id {
                let mut a = self.active_alerts.remove(i);
                a.dismiss();
                let ghost h0 = alerts_view(self.history@);
                self.history.push(a);
                proof {
                    lemma_find_alert_hit(active0, *id, i as int);
                    lemma_remove_first_hit(active0, *id, i as int);
                    assert(alerts_view(self.active_alerts@) =~= active0.remove(i as int));
                    assert(alerts_view(self.history@) =~= h0.push(
                        crate::alert::dismissed_view(active0[i as int]),
                    ));
                    assert(self@ =~~= (ManagerView {
                        active: remove_first(active0, *id),
                        history: m0@.history.push(
                            crate::alert::dismissed_view(active0[i as int]),
                        ),
                        ..m0@
                    }));
                }
                return;
            }
            i += 1;
        }
        proof {
            lemma_find_alert_miss(active0, *id);
            assert(self@ =~~= m0@);
        }
    }

    /// Moves every active alert to history as `Dismissed`, in
    /// active-set order, leaving the active set empty.
    pub fn dismiss_all(&mut self)
        ensures
            final(self)@ == (ManagerView {
                active: Seq::empty(),
                history: old(self)@.history + dismissed_batch(old(self)@.active),
                ..old(self)@
            }),
    {
        let ghost orig = self@.active;
        let ghost hist0 = self@.history;
        proof {
            assert(orig.skip(0) =~= orig);
            assert(orig.take(0) =~= Seq::<AlertView>::empty());
            assert(dismissed_batch(orig.take(0)) =~= Seq::<AlertView>::empty());
            assert(hist0 + Seq::<AlertView>::empty() =~= hist0);
        }
        while self.active_alerts.len() > 0
            invariant
                self@ =~~= (ManagerView { active: self@.active, history: self@.history, ..old(self)@ }),
                orig == old(self)@.active,
                hist0 == old(self)@.history,
                self.active_alerts@.len() <= orig.len(),
                alerts_view(self.active_alerts@) == orig.skip(
                    orig.len() - self.active_alerts@.len(),
                ),
                self@.history == hist0 + dismissed_batch(
                    orig.take(orig.len() - self.active_alerts@.len()),
                ),
            decreases self.active_alerts@.len(),
        {
            let ghost i = orig.len() - self.active_alerts@.len();
            let ghost rem0 = self.active_alerts@;
            let mut a = self.active_alerts.remove(0);
            a.dismiss();
            let ghost h = self@.history;
            self.history.push(a);
            proof {
                assert(alerts_view(rem0)[0] == orig[i]);
                assert forall|k: int| 0 <= k < self.active_alerts@.len() implies
                    alerts_view(self.active_alerts@)[k] == orig.skip(i + 1)[k] by {
                    assert(self.active_alerts@[k] == rem0[k + 1]);
                    assert(alerts_view(rem0)[k + 1] == orig.skip(i)[k + 1]);
                }
                assert(alerts_view(self.active_alerts@) =~= orig.skip(i + 1));
                assert(alerts_view(self.history@) =~= h.push(
                    crate::alert::dismissed_view(orig[i]),
                ));
                assert(orig.take(i + 1) =~= orig.take(i).push(orig[i]));
                assert(dismissed_batch(orig.take(i + 1)) =~= dismissed_batch(
                    orig.take(i),
                ).push(crate::alert::dismissed_view(orig[i])));
                assert(self@.history =~= hist0 + dismissed_batch(orig.take(i + 1)));
            }
        }
        proof {
            assert(orig.take(orig.len() as int) =~= orig);
            assert(self@.active =~= Seq::<AlertView>::empty());
            assert(self@ =~~= (ManagerView {
                active: Seq::empty(),
                history: hist0 + dismissed_batch(orig),
                ..old(self)@
            }));
        }
    }
}

/// The display order of the active list: strictly more severe alerts
/// first; within a severity, the most recent trigger first.
pub open spec fn level_ge(a: AlertView, b: AlertView) -> bool {
    crate::alert::level_rank(a.level) > crate::alert::level_rank(b.level) || (
    crate::alert::level_rank(a.level) == crate::alert::level_rank(b.level)
        && a.triggered_at >= b.triggered_at)
}

/// Whether a sequence is sorted in display order.
pub open spec fn display_ordered(s: Seq<AlertView>) -> bool {
    forall|i: int, j: int| 0 <= i < j < s.len() ==> level_ge(#[trigger] s[i], #[trigger] s[j])
}

/// Whether `a` comes no later than `b` in display order.
fn level_ge_ref(a: &Alert, b: &Alert) -> (r: bool)
    ensures
        r == level_ge(a@, b@),
{
    let ra = a.level.rank();
    let rb = b.level.rank();
    ra > rb || (ra == rb && a.triggered_at >= b.triggered_at)
}

impl AlertManager {
    /// The active alerts sorted for display: by severity descending,
    /// ties broken by the most recent trigger time first. The result
    /// holds exactly the active alerts.
    pub fn get_active_alerts(&self) -> (r: Vec<&Alert>)
        ensures
            refs_view(r@).to_multiset() == self@.active.to_multiset(),
            display_ordered(refs_view(r@)),
    {
        let ghost active = self@.active;
        let mut out: Vec<&Alert> = Vec::new();
        let n = self.active_alerts.len();
        proof {
            assert(active.take(0) =~= Seq::<AlertView>::empty());
            assert(refs_view(out@) =~= Seq::<AlertView>::empty());
        }
        let mut i: usize = 0;
        while i < n
            invariant
                0 <= i <= n,
                n == self.active_alerts@.len(),
                active == self@.active,
                out@.len() == i,
                refs_view(out@).to_multiset() == active.take(i as int).to_multiset(),
                display_ordered(refs_view(out@)),
            decreases n - i,
        {
            let x = &self.active_alerts[i];
            proof {
                assert(x@ == active[i as int]);
            }
            let mut j: usize = 0;
            while j < out.len() && level_ge_ref(out[j], x)
                invariant
                    0 <= j <= out@.len(),
                    out@.len() == i,
                    i < n,
                    n == self.active_alerts@.len(),
                    active == self@.active,
                    x@ == active[i as int],
                    forall|k: int| 0 <= k < j ==> level_ge(#[trigger] refs_view(out@)[k], x@),
                    display_ordered(refs_view(out@)),
                decreases out@.len() - j,
            {
                proof {
                    assert(refs_view(out@)[j as int] == out@[j as int]@);
                }
                j += 1;
            }
            let ghost out0 = refs_view(out@);
            let ghost jj = j as int;
            proof {
                assert(jj == out0.len() || !level_ge(out0[jj], x@));
            }
            out.insert(j, x);
            proof {
                broadcast use vstd::seq_lib::group_to_multiset_ensures;

                assert(refs_view(out@) =~= out0.insert(jj, active[i as int]));
                vstd::seq_lib::to_multiset_insert(out0, jj, active[i as int]);
                assert(refs_view(out@).to_multiset() == out0.to_multiset().insert(
                    active[i as int],
                ));
                assert(active.take(i + 1) =~= active.take(i as int).push(active[i as int]));
                assert(active.take(i + 1).to_multiset() == active.take(
                    i as int,
                ).to_multiset().insert(active[i as int]));
                let s2 = refs_view(out@);
                assert forall|p: int, q: int| 0 <= p < q < s2.len() implies level_ge(
                    s2[p],
                    s2[q],
                ) by {
                    assert(s2[p] == if p < jj {
                        out0[p]
                    } else if p == jj {
                        active[i as int]
                    } else {
                        out0[p - 1]
                    });
                    assert(s2[q] == if q < jj {
                        out0[q]
                    } else if q == jj {
                        active[i as int]
                    } else {
                        out0[q - 1]
                    });
                }
            }
            i += 1;
        }
        proof {
            assert(active.take(n as int) =~= active);
        }
        out
    }
}

/// Whether the alert has exactly this severity.
fn matches_level(a: &Alert, level: AlertLevel) -> (r: bool)
    ensures
        r == (a.level == level),
{
    a.level == level
}

/// Whether `src` reads exactly `lit`.
fn source_is(src: &String, lit: &str) -> (r: bool)
    ensures
        r == (src@ == lit@),
{
    let l = String::from_str(lit);
    src.eq(&l)
}

impl Default for AlertManager {
    /// Same as [`AlertManager::new`].
    fn default() -> (r: Self)
        ensures
            r@ == initial_manager(),
    {
        AlertManager::new()
    }
}

} // verus!
