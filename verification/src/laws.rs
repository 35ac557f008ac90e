//! Laws of the alerting engine: properties that relate several
//! operations, stated over the same spec functions that the executable
//! functions' contracts use, and proved once and for all.

use vstd::prelude::*;
use vstd::seq_lib::group_filter_ensures;

use crate::alert::{acknowledged_view, dismissed_view, AlertCategory, AlertId, AlertLevel, AlertStatus, AlertView};
use crate::manager::{ack_first, admit_alert, admit_seq, all_candidates, capped_history, cleanup, cycle, dedup_find, dedup_record, find_alert, history_max_age_ms, lemma_ack_first_hit, lemma_find_alert_hit, lemma_remove_first_hit, remove_first, resolved_all, resolving, should_resolve, suppressed, DedupEntryView, ManagerView};
use crate::rules::{alert_of_candidate, cpu_candidates, kubernetes_candidates, system_candidates, unhealthy_nodes, Candidate, SystemAlert};
use crate::snapshot::{K8sClusterInfo, SystemMetrics};

verus! {

/// The candidates of a sequence that carry the source tag `src`.
pub open spec fn with_source(cs: Seq<Candidate>, src: Seq<char>) -> Seq<Candidate> {
    cs.filter(|c: Candidate| c.source == src)
}

/// Splitting off one more candidate extends the per-source selection
/// exactly when the candidate carries that source.
proof fn lemma_with_source_snoc(cs: Seq<Candidate>, x: Candidate, src: Seq<char>)
    ensures
        with_source(cs.push(x), src) == if x.source == src {
            with_source(cs, src).push(x)
        } else {
            with_source(cs, src)
        },
{
    reveal_with_fuel(Seq::<Candidate>::filter, 2);
    assert(cs.push(x).drop_last() =~= cs);
    assert(cs.push(x).last() == x);
}

/// Among all system candidates, the ones tagged `"cpu"` are exactly the
/// cpu dimension's: the other dimensions use different source tags.
proof fn lemma_system_cpu_selection(m: SystemMetrics, c: SystemAlert)
    ensures
        with_source(system_candidates(m, c), "cpu"@) == cpu_candidates(m, c),
{
    reveal_strlit("cpu");
    reveal_strlit("memory");
    reveal_strlit("disk");
    reveal_strlit("load");
    let sys = system_candidates(m, c);
    let cpu = cpu_candidates(m, c);
    assert forall|k: int| cpu.len() <= k < sys.len() implies (#[trigger] sys[k].source)
        != "cpu"@ by {
        assert(sys[k].source.len() != 3);
    }
    if cpu.len() == 0 {
        lemma_no_source_empty(sys, "cpu"@);
        assert(with_source(sys, "cpu"@) =~= cpu);
    } else {
        assert(cpu.len() == 1);
        assert(sys[0] == cpu[0]);
        assert(sys =~= seq![cpu[0]] + sys.skip(1));
        assert(forall|k: int| 0 <= k < sys.skip(1).len() ==> (#[trigger] sys.skip(1)[k].source)
            != "cpu"@);
        lemma_with_source_cons(cpu[0], sys.skip(1), "cpu"@);
        assert(with_source(sys, "cpu"@) =~= cpu);
    }
}

/// A sequence with no candidate of source `src` selects to nothing.
proof fn lemma_no_source_empty(cs: Seq<Candidate>, src: Seq<char>)
    requires
        forall|k: int| 0 <= k < cs.len() ==> (#[trigger] cs[k].source) != src,
    ensures
        with_source(cs, src) =~= Seq::<Candidate>::empty(),
    decreases cs.len(),
{
    if cs.len() > 0 {
        lemma_with_source_snoc(cs.drop_last(), cs.last(), src);
        assert(cs.drop_last().push(cs.last()) =~= cs);
        assert(forall|k: int| 0 <= k < cs.drop_last().len() ==> (#[trigger] cs.drop_last()[k].source) != src);
        lemma_no_source_empty(cs.drop_last(), src);
    }
}

/// Selecting from a sequence headed by a matching candidate keeps that
/// head.
proof fn lemma_with_source_cons(x: Candidate, rest: Seq<Candidate>, src: Seq<char>)
    requires
        x.source == src,
        forall|k: int| 0 <= k < rest.len() ==> (#[trigger] rest[k].source) != src,
    ensures
        with_source(seq![x] + rest, src) =~= seq![x],
    decreases rest.len(),
{
    if rest.len() == 0 {
        assert(seq![x] + rest =~= seq![x]);
        assert(seq![x] =~= Seq::<Candidate>::empty().push(x));
        lemma_with_source_snoc(Seq::<Candidate>::empty(), x, src);
        assert(with_source(Seq::<Candidate>::empty(), src) =~= Seq::<Candidate>::empty());
    } else {
        assert((seq![x] + rest).drop_last() =~= seq![x] + rest.drop_last());
        assert((seq![x] + rest) =~= (seq![x] + rest.drop_last()).push(rest.last()));
        lemma_with_source_snoc(seq![x] + rest.drop_last(), rest.last(), src);
        assert(forall|k: int| 0 <= k < rest.drop_last().len() ==> (#[trigger] rest.drop_last()[k].source) != src);
        lemma_with_source_cons(x, rest.drop_last(), src);
    }
}

/// Threshold rule for the cpu dimension at the default thresholds: a
/// usage at or above 95 yields exactly one `Critical` candidate with
/// source `"cpu"`, a usage in `[80, 95)` exactly one `Warning`, and a
/// usage below 80 none at all.
pub proof fn lemma_cpu_thresholds(m: SystemMetrics, c: SystemAlert)
    requires
        c.cpu_enabled,
        c.cpu_warning_threshold == 80,
        c.cpu_critical_threshold == 95,
    ensures
        m.cpu_usage >= 95 ==> with_source(system_candidates(m, c), "cpu"@) == seq![
            system_candidates(m, c)[0],
        ] && system_candidates(m, c)[0].level == AlertLevel::Critical
            && system_candidates(m, c)[0].source == "cpu"@,
        80 <= m.cpu_usage < 95 ==> with_source(system_candidates(m, c), "cpu"@) == seq![
            system_candidates(m, c)[0],
        ] && system_candidates(m, c)[0].level == AlertLevel::Warning
            && system_candidates(m, c)[0].source == "cpu"@,
        m.cpu_usage < 80 ==> with_source(system_candidates(m, c), "cpu"@)
            == Seq::<Candidate>::empty(),
    {
    lemma_system_cpu_selection(m, c);
    let cpu = cpu_candidates(m, c);
    if m.cpu_usage >= 80 {
        assert(system_candidates(m, c)[0] == cpu[0]);
        assert(cpu =~= seq![cpu[0]]);
    } else {
        assert(cpu =~= Seq::<Candidate>::empty());
    }
}

/// Hysteresis for the cpu dimension: an alert tagged `"cpu"` with a
/// recorded threshold auto-resolves exactly when the current usage has
/// fallen more than the margin of 5 below that threshold; without a
/// recorded threshold it never auto-resolves.
pub proof fn lemma_cpu_hysteresis(a: AlertView, sys: SystemMetrics, k8s: K8sClusterInfo)
    requires
        a.metadata.source == "cpu"@,
    ensures
        should_resolve(a, sys, k8s) == match a.metadata.threshold {
            Option::Some(t) => (sys.cpu_usage as int) < t - 5,
            Option::None => false,
        },
{
}

/// Every alert that the auto-resolution pass moves to history is marked
/// `Resolved` and stamped with the cycle's time; the pass touches
/// nothing else in the manager but the active set and the history, and
/// an alert whose predicate holds is among the moved.
pub proof fn lemma_resolution_moves_to_history(
    m: ManagerView,
    sys: SystemMetrics,
    k8s: K8sClusterInfo,
    now_ms: i64,
    j: int,
)
    requires
        0 <= j < m.active.len(),
        should_resolve(m.active[j], sys, k8s),
    ensures
        resolving(m.active, sys, k8s).contains(m.active[j]),
        crate::manager::resolve_pass(m, sys, k8s, now_ms).history == m.history + resolved_all(
            resolving(m.active, sys, k8s),
            now_ms,
        ),
        forall|k: int| 0 <= k < resolved_all(resolving(m.active, sys, k8s), now_ms).len()
            ==> (#[trigger] resolved_all(resolving(m.active, sys, k8s), now_ms)[k]).status
            == AlertStatus::Resolved && resolved_all(resolving(m.active, sys, k8s), now_ms)[k]
            .resolved_at == Option::Some(now_ms),
{
    broadcast use group_filter_ensures;

    assert(resolving(m.active, sys, k8s).contains(m.active[j]));
    let batch = resolving(m.active, sys, k8s);
    assert forall|k: int| 0 <= k < resolved_all(batch, now_ms).len() implies (#[trigger]
    resolved_all(batch, now_ms)[k]).status == AlertStatus::Resolved && resolved_all(
        batch,
        now_ms,
    )[k].resolved_at == Option::Some(now_ms) by {
        assert(resolved_all(batch, now_ms)[k] == crate::alert::resolved_view(batch[k], now_ms));
    }
}

/// History retention bounds: after the retention pass the history holds
/// at most the cap, every remaining entry is younger than the maximum
/// age, and what the cap drops is exactly the oldest prefix.
pub proof fn lemma_history_retention(m: ManagerView, now_ms: i64)
    ensures
        cleanup(m, now_ms).history.len() <= m.max_history_size,
        forall|k: int| 0 <= k < cleanup(m, now_ms).history.len()
            ==> (#[trigger] cleanup(m, now_ms).history[k]).triggered_at
            > now_ms - history_max_age_ms(),
        m.history.len() > m.max_history_size ==> capped_history(m.history, m.max_history_size)
            =~= m.history.skip(m.history.len() - m.max_history_size),
        m.history.len() <= m.max_history_size ==> capped_history(m.history, m.max_history_size)
            == m.history,
        capped_history(m.history, m.max_history_size).len() == if m.history.len()
            > m.max_history_size {
            m.max_history_size as int
        } else {
            m.history.len() as int
        },
{
    broadcast use group_filter_ensures;

    let capped = capped_history(m.history, m.max_history_size);
    assert(cleanup(m, now_ms).history.len() <= capped.len());
}

/// Acknowledge, then dismiss: acknowledging the alert under `id` stamps
/// the acknowledge time and leaves it active; dismissing it afterwards
/// removes it from the active set and appends it to history with status
/// `Dismissed`, the acknowledge timestamp preserved, and still no
/// resolve timestamp.
pub proof fn lemma_acknowledge_then_dismiss(m: ManagerView, id: AlertId, t_ack: i64, j: int)
    requires
        0 <= j < m.active.len(),
        m.active[j].id == id,
        forall|k: int| 0 <= k < j ==> (#[trigger] m.active[k].id) != id,
        m.active[j].status == AlertStatus::Active,
        m.active[j].resolved_at is None,
    ensures
        ({
            let a1 = acknowledged_view(m.active[j], t_ack);
            &&& ack_first(m.active, id, t_ack) == m.active.update(j, a1)
            &&& a1.status == AlertStatus::Acknowledged
            &&& a1.acknowledged_at == Option::Some(t_ack)
            &&& a1.resolved_at is None
            &&& a1.triggered_at == m.active[j].triggered_at
            &&& find_alert(m.active.update(j, a1), id) == Option::Some(a1)
            &&& remove_first(m.active.update(j, a1), id) == m.active.update(j, a1).remove(j)
            &&& dismissed_view(a1).status == AlertStatus::Dismissed
            &&& dismissed_view(a1).acknowledged_at == Option::Some(t_ack)
            &&& dismissed_view(a1).resolved_at is None
        }),
{
    let a1 = acknowledged_view(m.active[j], t_ack);
    lemma_ack_first_hit(m.active, id, t_ack, j);
    assert(ack_first(m.active, id, t_ack) =~= m.active.update(j, a1));
    let updated = m.active.update(j, a1);
    assert(updated[j].id == id);
    assert(forall|k: int| 0 <= k < j ==> (#[trigger] updated[k].id) != id);
    lemma_find_alert_hit(updated, id, j);
    lemma_remove_first_hit(updated, id, j);
    assert(remove_first(updated, id) =~= updated.remove(j));
}

/// Recording an admission for one key leaves the record of every other
/// key untouched.
proof fn lemma_dedup_record_other(
    e: Seq<DedupEntryView>,
    cat1: AlertCategory,
    src1: Seq<char>,
    cat2: AlertCategory,
    src2: Seq<char>,
    t: i64,
)
    requires
        !(cat1 == cat2 && src1 == src2),
    ensures
        dedup_find(dedup_record(e, cat2, src2, t), cat1, src1) == dedup_find(e, cat1, src1),
    decreases e.len(),
{
    reveal_with_fuel(dedup_find, 3);
    if e.len() == 0 {
        let rec = dedup_record(e, cat2, src2, t);
        assert(rec.len() == 1);
        assert(!(rec[0].category == cat1 && rec[0].source == src1));
        assert(rec.skip(1) =~= Seq::<DedupEntryView>::empty());
    } else if e[0].category == cat2 && e[0].source == src2 {
        let rec = e.update(0, DedupEntryView { category: cat2, source: src2, at_ms: t });
        assert(dedup_record(e, cat2, src2, t) == rec);
        assert(!(rec[0].category == cat1 && rec[0].source == src1));
        assert(!(e[0].category == cat1 && e[0].source == src1));
        assert(rec.skip(1) =~= e.skip(1));
    } else {
        let rest = dedup_record(e.skip(1), cat2, src2, t);
        assert(dedup_record(e, cat2, src2, t) == seq![e[0]] + rest);
        assert((seq![e[0]] + rest)[0] == e[0]);
        assert((seq![e[0]] + rest).skip(1) =~= rest);
        lemma_dedup_record_other(e.skip(1), cat1, src1, cat2, src2, t);
        if e[0].category == cat1 && e[0].source == src1 {
        } else {
        }
    }
}

/// Recording an admission for a key makes that key's record the
/// admission time.
proof fn lemma_dedup_record_same(
    e: Seq<DedupEntryView>,
    cat: AlertCategory,
    src: Seq<char>,
    t: i64,
)
    ensures
        dedup_find(dedup_record(e, cat, src, t), cat, src) == Option::Some(t),
    decreases e.len(),
{
    reveal_with_fuel(dedup_find, 2);
    if e.len() == 0 {
        assert(dedup_record(e, cat, src, t).len() == 1);
    } else if e[0].category == cat && e[0].source == src {
        let rec = e.update(0, DedupEntryView { category: cat, source: src, at_ms: t });
        assert(dedup_record(e, cat, src, t) == rec);
        assert(rec[0].category == cat && rec[0].source == src);
    } else {
        let rest = dedup_record(e.skip(1), cat, src, t);
        assert(dedup_record(e, cat, src, t) == seq![e[0]] + rest);
        assert((seq![e[0]] + rest)[0] == e[0]);
        assert((seq![e[0]] + rest).skip(1) =~= rest);
        lemma_dedup_record_same(e.skip(1), cat, src, t);
    }
}

/// Admitting an alert under a different key leaves a key's dedup record
/// untouched.
proof fn lemma_admit_other_preserves_key(
    m: ManagerView,
    a: AlertView,
    now_ms: i64,
    cat: AlertCategory,
    src: Seq<char>,
)
    requires
        !(a.category == cat && a.metadata.source == src),
    ensures
        dedup_find(admit_alert(m, a, now_ms).last_triggered, cat, src) == dedup_find(
            m.last_triggered,
            cat,
            src,
        ),
{
    if !suppressed(m, a.category, a.metadata.source, now_ms) {
        lemma_dedup_record_other(m.last_triggered, cat, src, a.category, a.metadata.source, now_ms);
    }
}

/// Admitting a whole sequence of candidates whose keys all differ from
/// a key leaves that key's dedup record untouched.
proof fn lemma_admit_seq_preserves_key(
    m: ManagerView,
    cs: Seq<Candidate>,
    ns: Seq<u32>,
    now_ms: i64,
    cat: AlertCategory,
    src: Seq<char>,
)
    requires
        forall|k: int| 0 <= k < cs.len() ==> !((#[trigger] cs[k].category) == cat
            && cs[k].source == src),
    ensures
        dedup_find(admit_seq(m, cs, ns, now_ms).last_triggered, cat, src) == dedup_find(
            m.last_triggered,
            cat,
            src,
        ),
    decreases cs.len(),
{
    if cs.len() > 0 {
        let a = alert_of_candidate(cs[0], now_ms, ns[0]);
        lemma_admit_other_preserves_key(m, a, now_ms, cat, src);
        assert(forall|k: int| 0 <= k < cs.skip(1).len() ==> cs.skip(1)[k] == cs[k + 1]);
        lemma_admit_seq_preserves_key(
            admit_alert(m, a, now_ms),
            cs.skip(1),
            ns.skip(1),
            now_ms,
            cat,
            src,
        );
    }
}

/// Admission steps never change the configuration, the evaluator
/// toggles, the history cap, or the dedup window.
proof fn lemma_admit_seq_settings(m: ManagerView, cs: Seq<Candidate>, ns: Seq<u32>, now_ms: i64)
    ensures
        admit_seq(m, cs, ns, now_ms).system_alerts_config == m.system_alerts_config,
        admit_seq(m, cs, ns, now_ms).kubernetes_enabled == m.kubernetes_enabled,
        admit_seq(m, cs, ns, now_ms).kubevirt_enabled == m.kubevirt_enabled,
        admit_seq(m, cs, ns, now_ms).max_history_size == m.max_history_size,
        admit_seq(m, cs, ns, now_ms).dedup_window_seconds == m.dedup_window_seconds,
    decreases cs.len(),
{
    if cs.len() > 0 {
        lemma_admit_seq_settings(
            admit_alert(m, alert_of_candidate(cs[0], now_ms, ns[0]), now_ms),
            cs.skip(1),
            ns.skip(1),
            now_ms,
        );
    }
}

/// A full cycle never changes the configuration, the evaluator toggles,
/// the history cap, or the dedup window.
pub proof fn lemma_cycle_settings(
    m: ManagerView,
    sys: SystemMetrics,
    k8s: K8sClusterInfo,
    kv: crate::snapshot::KubeVirtInfo,
    now_ms: i64,
    ns: Seq<u32>,
)
    ensures
        cycle(m, sys, k8s, kv, now_ms, ns).system_alerts_config == m.system_alerts_config,
        cycle(m, sys, k8s, kv, now_ms, ns).kubernetes_enabled == m.kubernetes_enabled,
        cycle(m, sys, k8s, kv, now_ms, ns).kubevirt_enabled == m.kubevirt_enabled,
        cycle(m, sys, k8s, kv, now_ms, ns).max_history_size == m.max_history_size,
        cycle(m, sys, k8s, kv, now_ms, ns).dedup_window_seconds == m.dedup_window_seconds,
        cycle(m, sys, k8s, kv, now_ms, ns).last_triggered == admit_seq(
            m,
            all_candidates(m, sys, k8s, kv),
            ns,
            now_ms,
        ).last_triggered,
{
    lemma_admit_seq_settings(m, all_candidates(m, sys, k8s, kv), ns, now_ms);
}

/// Dedup idempotence: starting with no record for the `"cpu"` key, a
/// cycle at `t0` whose cpu dimension fires admits the cpu candidate and
/// records `t0` for the key; in any second cycle at `t1` within the
/// dedup window, every cpu-tagged candidate is suppressed — admitting
/// it is a no-op, so the active set gains no second cpu alert.
pub proof fn lemma_dedup_idempotence(
    m0: ManagerView,
    sys0: SystemMetrics,
    k8s0: K8sClusterInfo,
    kv0: crate::snapshot::KubeVirtInfo,
    t0: i64,
    ns0: Seq<u32>,
    t1: i64,
)
    requires
        m0.system_alerts_config.cpu_enabled,
        sys0.cpu_usage >= m0.system_alerts_config.cpu_warning_threshold,
        dedup_find(m0.last_triggered, AlertCategory::System, "cpu"@) is None,
        t1 - t0 < m0.dedup_window_seconds * 1000,
    ensures
        ({
            let m1 = cycle(m0, sys0, k8s0, kv0, t0, ns0);
            &&& dedup_find(m1.last_triggered, AlertCategory::System, "cpu"@)
                == Option::Some(t0)
            &&& suppressed(m1, AlertCategory::System, "cpu"@, t1)
            &&& forall|c: Candidate, n: u32| c.category == AlertCategory::System && c.source
                == "cpu"@ ==> admit_alert(m1, #[trigger] alert_of_candidate(c, t1, n), t1) == m1
        }),
{
    reveal_strlit("cpu");
    reveal_strlit("memory");
    reveal_strlit("disk");
    reveal_strlit("load");
    reveal_strlit("k8s-nodes");
    reveal_strlit("k8s-cluster");
    reveal_strlit("kubevirt-migration");
    let cfg = m0.system_alerts_config;
    let cs = all_candidates(m0, sys0, k8s0, kv0);
    let cpu = cpu_candidates(sys0, cfg);
    assert(cpu.len() == 1);
    assert(cs[0] == cpu[0]);
    assert(cs[0].category == AlertCategory::System && cs[0].source == "cpu"@);
    assert forall|k: int| 1 <= k < cs.len() implies !((#[trigger] cs[k].category)
        == AlertCategory::System && cs[k].source == "cpu"@) by {
        assert(cs[k].source.len() != 3);
    }
    let a0 = alert_of_candidate(cs[0], t0, ns0[0]);
    assert(!suppressed(m0, a0.category, a0.metadata.source, t0));
    let m_after_first = admit_alert(m0, a0, t0);
    lemma_dedup_record_same(m0.last_triggered, AlertCategory::System, "cpu"@, t0);
    assert(dedup_find(m_after_first.last_triggered, AlertCategory::System, "cpu"@)
        == Option::Some(t0));
    assert(forall|k: int| 0 <= k < cs.skip(1).len() ==> cs.skip(1)[k] == cs[k + 1]);
    lemma_admit_seq_preserves_key(
        m_after_first,
        cs.skip(1),
        ns0.skip(1),
        t0,
        AlertCategory::System,
        "cpu"@,
    );
    assert(admit_seq(m0, cs, ns0, t0) == admit_seq(m_after_first, cs.skip(1), ns0.skip(1), t0));
    let admitted = admit_seq(m0, cs, ns0, t0);
    assert(dedup_find(admitted.last_triggered, AlertCategory::System, "cpu"@)
        == Option::Some(t0));
    let m1 = cycle(m0, sys0, k8s0, kv0, t0, ns0);
    lemma_cycle_settings(m0, sys0, k8s0, kv0, t0, ns0);
    assert(m1.last_triggered == admitted.last_triggered);
    assert(suppressed(m1, AlertCategory::System, "cpu"@, t1));
}

/// Pairwise distinctness of the identifiers in an active set.
pub open spec fn unique_ids(s: Seq<AlertView>) -> bool {
    forall|i: int, j: int| 0 <= i < j < s.len() ==> (#[trigger] s[i].id) != (#[trigger] s[j].id)
}

/// Dropping an identifier keeps the remaining alerts distinct, free of
/// that identifier, and drawn from the original set.
proof fn lemma_drop_id_unique(s: Seq<AlertView>, id: AlertId)
    requires
        unique_ids(s),
    ensures
        unique_ids(crate::manager::drop_id(s, id)),
        forall|k: int| 0 <= k < crate::manager::drop_id(s, id).len()
            ==> (#[trigger] crate::manager::drop_id(s, id)[k].id) != id,
        forall|k: int| 0 <= k < crate::manager::drop_id(s, id).len() ==> s.contains(
            #[trigger] crate::manager::drop_id(s, id)[k],
        ),
    decreases s.len(),
{
    broadcast use group_filter_ensures;

    reveal_with_fuel(Seq::<AlertView>::filter, 2);
    if s.len() == 0 {
        assert(crate::manager::drop_id(s, id) =~= Seq::<AlertView>::empty());
    } else {
        let s0 = s.drop_last();
        let x = s.last();
        assert(s0.push(x) =~= s);
        crate::manager::lemma_drop_id_snoc(s0, x, id);
        assert(forall|i: int, j: int| 0 <= i < j < s0.len() ==> (#[trigger] s0[i].id)
            != (#[trigger] s0[j].id));
        lemma_drop_id_unique(s0, id);
        let d0 = crate::manager::drop_id(s0, id);
        if x.id != id {
            let d = d0.push(x);
            assert(crate::manager::drop_id(s, id) == d);
            assert forall|i: int, j: int| 0 <= i < j < d.len() implies (#[trigger] d[i].id)
                != (#[trigger] d[j].id) by {
                if j == d.len() - 1 {
                    assert(d[i] == d0[i]);
                    assert(s0.contains(d0[i]) || s.contains(d0[i]));
                    let w = choose|w: int| 0 <= w < s.len() && s[w] == d0[i];
                    if w < s.len() - 1 {
                        assert(s[w].id != s[s.len() - 1].id);
                    }
                }
            }
            assert forall|k: int| 0 <= k < d.len() implies s.contains(#[trigger] d[k]) by {
                if k < d0.len() {
                    let w = choose|w: int| 0 <= w < s0.len() && s0[w] == d0[k];
                    assert(s[w] == d0[k]);
                } else {
                    assert(s[s.len() - 1] == x);
                }
            }
        } else {
            assert(crate::manager::drop_id(s, id) == d0);
            assert forall|k: int| 0 <= k < d0.len() implies s.contains(#[trigger] d0[k]) by {
                let w = choose|w: int| 0 <= w < s0.len() && s0[w] == d0[k];
                assert(s[w] == d0[k]);
            }
        }
    }
}

/// One admission keeps active identifiers pairwise distinct.
proof fn lemma_admit_alert_unique(m: ManagerView, a: AlertView, now_ms: i64)
    requires
        unique_ids(m.active),
    ensures
        unique_ids(admit_alert(m, a, now_ms).active),
{
    if !suppressed(m, a.category, a.metadata.source, now_ms) {
        lemma_drop_id_unique(m.active, a.id);
        let d = crate::manager::drop_id(m.active, a.id);
        let s = d.push(a);
        assert forall|i: int, j: int| 0 <= i < j < s.len() implies (#[trigger] s[i].id)
            != (#[trigger] s[j].id) by {
            if j == s.len() - 1 {
                assert(s[i] == d[i]);
                assert(d[i].id != a.id);
            }
        }
    }
}

/// Admitting a whole candidate sequence keeps active identifiers
/// pairwise distinct.
proof fn lemma_admit_seq_unique(m: ManagerView, cs: Seq<Candidate>, ns: Seq<u32>, now_ms: i64)
    requires
        unique_ids(m.active),
    ensures
        unique_ids(admit_seq(m, cs, ns, now_ms).active),
    decreases cs.len(),
{
    if cs.len() > 0 {
        let a = alert_of_candidate(cs[0], now_ms, ns[0]);
        lemma_admit_alert_unique(m, a, now_ms);
        lemma_admit_seq_unique(admit_alert(m, a, now_ms), cs.skip(1), ns.skip(1), now_ms);
    }
}

/// The auto-resolution pass keeps the surviving identifiers pairwise
/// distinct: they are a subsequence of the incoming active set.
proof fn lemma_resolve_pass_unique(
    m: ManagerView,
    sys: SystemMetrics,
    k8s: K8sClusterInfo,
    now_ms: i64,
)
    requires
        unique_ids(m.active),
    ensures
        unique_ids(crate::manager::resolve_pass(m, sys, k8s, now_ms).active),
{
    lemma_filtered_unique(m.active, sys, k8s);
}

/// A filtered active set of distinct identifiers stays distinct and
/// drawn from the original.
proof fn lemma_filtered_unique(s: Seq<AlertView>, sys: SystemMetrics, k8s: K8sClusterInfo)
    requires
        unique_ids(s),
    ensures
        unique_ids(crate::manager::surviving(s, sys, k8s)),
        forall|k: int| 0 <= k < crate::manager::surviving(s, sys, k8s).len() ==> s.contains(
            #[trigger] crate::manager::surviving(s, sys, k8s)[k],
        ),
    decreases s.len(),
{
    reveal_with_fuel(Seq::<AlertView>::filter, 2);
    if s.len() == 0 {
        assert(crate::manager::surviving(s, sys, k8s) =~= Seq::<AlertView>::empty());
    } else {
        let s0 = s.drop_last();
        let x = s.last();
        assert(s0.push(x) =~= s);
        crate::manager::lemma_resolve_partition_snoc(s0, x, sys, k8s);
        assert(forall|i: int, j: int| 0 <= i < j < s0.len() ==> (#[trigger] s0[i].id)
            != (#[trigger] s0[j].id));
        lemma_filtered_unique(s0, sys, k8s);
        let d0 = crate::manager::surviving(s0, sys, k8s);
        if !should_resolve(x, sys, k8s) {
            let d = d0.push(x);
            assert(crate::manager::surviving(s, sys, k8s) == d);
            assert forall|i: int, j: int| 0 <= i < j < d.len() implies (#[trigger] d[i].id)
                != (#[trigger] d[j].id) by {
                if j == d.len() - 1 {
                    assert(d[i] == d0[i]);
                    let w = choose|w: int| 0 <= w < s0.len() && s0[w] == d0[i];
                    assert(s[w].id != s[s.len() - 1].id);
                }
            }
            assert forall|k: int| 0 <= k < d.len() implies s.contains(#[trigger] d[k]) by {
                if k < d0.len() {
                    let w = choose|w: int| 0 <= w < s0.len() && s0[w] == d0[k];
                    assert(s[w] == d0[k]);
                } else {
                    assert(s[s.len() - 1] == x);
                }
            }
        } else {
            assert(crate::manager::surviving(s, sys, k8s) == d0);
            assert forall|k: int| 0 <= k < d0.len() implies s.contains(#[trigger] d0[k]) by {
                let w = choose|w: int| 0 <= w < s0.len() && s0[w] == d0[k];
                assert(s[w] == d0[k]);
            }
        }
    }
}

/// Unique active identifiers are an invariant of the manager: a fresh
/// manager has them, and a full evaluation cycle preserves them — the
/// active set may hold several alerts for the same category and source
/// once the dedup window has elapsed, but never two under one
/// identifier.
pub proof fn lemma_cycle_preserves_unique_ids(
    m: ManagerView,
    sys: SystemMetrics,
    k8s: K8sClusterInfo,
    kv: crate::snapshot::KubeVirtInfo,
    now_ms: i64,
    ns: Seq<u32>,
)
    requires
        unique_ids(m.active),
    ensures
        unique_ids(cycle(m, sys, k8s, kv, now_ms, ns).active),
        unique_ids(crate::manager::initial_manager().active),
{
    lemma_admit_seq_unique(m, all_candidates(m, sys, k8s, kv), ns, now_ms);
    lemma_resolve_pass_unique(admit_seq(m, all_candidates(m, sys, k8s, kv), ns, now_ms), sys, k8s, now_ms);
}

/// The user commands preserve unique active identifiers:
/// acknowledgement rewrites one alert in place without changing its
/// identifier, and dismissal only removes.
pub proof fn lemma_commands_preserve_unique_ids(s: Seq<AlertView>, id: AlertId, t_ack: i64)
    requires
        unique_ids(s),
    ensures
        unique_ids(ack_first(s, id, t_ack)),
        unique_ids(remove_first(s, id)),
{
    lemma_ack_first_keeps_ids(s, id, t_ack);
    lemma_remove_first_unique(s, id);
}

/// Acknowledgement keeps the sequence of identifiers unchanged.
proof fn lemma_ack_first_keeps_ids(s: Seq<AlertView>, id: AlertId, t_ack: i64)
    ensures
        ack_first(s, id, t_ack).len() == s.len(),
        forall|k: int| 0 <= k < s.len() ==> (#[trigger] ack_first(s, id, t_ack)[k].id)
            == s[k].id,
    decreases s.len(),
{
    if s.len() > 0 && !(s[0].id == id) {
        lemma_ack_first_keeps_ids(s.skip(1), id, t_ack);
        assert forall|k: int| 0 <= k < s.len() implies (#[trigger] ack_first(s, id, t_ack)[k].id)
            == s[k].id by {
            if k > 0 {
                assert(ack_first(s, id, t_ack)[k] == ack_first(s.skip(1), id, t_ack)[k - 1]);
                assert(s.skip(1)[k - 1] == s[k]);
            }
        }
    }
}

/// Removal keeps the remaining alerts distinct and drawn from the
/// original set.
proof fn lemma_remove_first_unique(s: Seq<AlertView>, id: AlertId)
    requires
        unique_ids(s),
    ensures
        unique_ids(remove_first(s, id)),
        forall|k: int| 0 <= k < remove_first(s, id).len() ==> s.contains(
            #[trigger] remove_first(s, id)[k],
        ),
    decreases s.len(),
{
    let r = remove_first(s, id);
    if s.len() == 0 {
    } else if s[0].id == id {
        assert(r == s.skip(1));
        assert forall|k: int| 0 <= k < r.len() implies s.contains(#[trigger] r[k]) by {
            assert(s[k + 1] == r[k]);
        }
    } else {
        assert(forall|i: int, j: int| 0 <= i < j < s.skip(1).len() ==> (#[trigger] s.skip(1)[i].id)
            != (#[trigger] s.skip(1)[j].id));
        lemma_remove_first_unique(s.skip(1), id);
        let r1 = remove_first(s.skip(1), id);
        assert(r == seq![s[0]] + r1);
        assert forall|k: int| 0 <= k < r.len() implies s.contains(#[trigger] r[k]) by {
            if k == 0 {
                assert(s[0] == r[0]);
            } else {
                assert(r[k] == r1[k - 1]);
                let w = choose|w: int| 0 <= w < s.skip(1).len() && s.skip(1)[w] == r1[k - 1];
                assert(s[w + 1] == r[k]);
            }
        }
        assert forall|i: int, j: int| 0 <= i < j < r.len() implies (#[trigger] r[i].id)
            != (#[trigger] r[j].id) by {
            if i == 0 {
                let w = choose|w: int| 0 <= w < s.skip(1).len() && s.skip(1)[w] == r1[j - 1];
                assert(r[j] == s[w + 1]);
                assert(s[0].id != s[w + 1].id);
            } else {
                assert(r[i] == r1[i - 1]);
                assert(r[j] == r1[j - 1]);
            }
        }
    }
}

/// Cluster rules: with the evaluator enabled, a cluster with some but
/// not all nodes unready yields exactly one `"k8s-nodes"` alert, which
/// is `Critical` exactly when at least half the nodes are unready; a
/// cluster reading with no nodes and no running pods yields exactly one
/// `Critical` `"k8s-cluster"` alert; both conditions can fire together,
/// and a disabled evaluator yields nothing.
pub proof fn lemma_cluster_rules(k: K8sClusterInfo, enabled: bool)
    ensures
        !enabled ==> kubernetes_candidates(k, enabled) == Seq::<Candidate>::empty(),
        enabled && k.nodes_total > 0 && unhealthy_nodes(k) > 0 ==> kubernetes_candidates(
            k,
            enabled,
        ).len() == 1 && kubernetes_candidates(k, enabled)[0].source == "k8s-nodes"@
            && kubernetes_candidates(k, enabled)[0].level == if unhealthy_nodes(k)
            >= k.nodes_total / 2 {
            AlertLevel::Critical
        } else {
            AlertLevel::Warning
        },
        enabled && k.nodes_total == 0 && k.pods_running == 0 ==> kubernetes_candidates(
            k,
            enabled,
        ).len() == 1 && kubernetes_candidates(k, enabled)[0].source == "k8s-cluster"@
            && kubernetes_candidates(k, enabled)[0].level == AlertLevel::Critical,
        enabled && k.nodes_total > 0 && unhealthy_nodes(k) <= 0 ==> kubernetes_candidates(
            k,
            enabled,
        ) == Seq::<Candidate>::empty(),
{
    if enabled {
        let empty = Seq::<Candidate>::empty();
        if k.nodes_total > 0 && unhealthy_nodes(k) > 0 {
            assert(kubernetes_candidates(k, enabled) =~= seq![
                kubernetes_candidates(k, enabled)[0],
            ]);
        } else if k.nodes_total == 0 && k.pods_running == 0 {
            assert(kubernetes_candidates(k, enabled) =~= seq![
                kubernetes_candidates(k, enabled)[0],
            ]);
        } else {
            assert(kubernetes_candidates(k, enabled) =~= empty);
        }
    }
}

} // verus!
