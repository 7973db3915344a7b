use crate::config::{EbpfMonitorConfig, ProcessConfig};
use crate::monitor::ebpf_monitor::watch_key;
use crate::text::name_set;
use crate::monitor_manager::{
    desired_keys, desired_tasks, desired_watches, distinct_keys, holds_key, holds_process,
    holds_watch, is_desired, kernel_after, key_of, keys_of, lemma_desired_tasks,
    lemma_filter_keeps_distinct_keys, missing_from, name_of, needs_start, not_desired,
    not_running, other_key, same_watch, start_of, stop_of, unwatch_of, unwatch_steps, wants_task,
    wants_watch, watch_of, watch_op_of, watch_steps, ManagerModel, MonitorOp,
};
use vstd::string::*;
use vstd::prelude::*;

verus! {

impl ManagerModel {
    /// The manager and the kernel's watch list after the steps `ops` were
    /// carried out in order, each with success.
    pub open spec fn settled(self, kernel: Set<Seq<u8>>, ops: Seq<MonitorOp>) -> (
        ManagerModel,
        Set<Seq<u8>>,
    )
        decreases ops.len(),
    {
        if ops.len() == 0 {
            (self, kernel)
        } else {
            let (manager, list) = self.settled(kernel, ops.drop_last());
            (manager.recorded(ops.last(), true), kernel_after(list, ops.last(), true))
        }
    }
}

/// What a filter keeps: the members that meet the condition.
proof fn lemma_filter_members<A>(list: Seq<A>, pred: spec_fn(A) -> bool, x: A)
    ensures
        list.filter(pred).contains(x) <==> list.contains(x) && pred(x),
{
    if list.filter(pred).contains(x) {
        list.lemma_filter_contains_rev(pred, x);
        let i = choose|i: int| 0 <= i < list.filter(pred).len() && list.filter(pred)[i] == x;
        list.lemma_filter_pred(pred, i);
    }
    if list.contains(x) && pred(x) {
        let i = choose|i: int| 0 <= i < list.len() && list[i] == x;
        list.lemma_filter_contains(pred, i);
    }
}

/// The watches left when those with the key `key` are taken out.
proof fn lemma_forget_key(list: Seq<EbpfMonitorConfig>, key: Seq<u8>)
    ensures
        forall|w: EbpfMonitorConfig|
            #![trigger holds_watch(list.filter(other_key(key)), w)]
            holds_watch(list.filter(other_key(key)), w) <==> holds_watch(list, w) && key_of(w)
                != key,
        forall|k: Seq<u8>|
            #![trigger holds_key(list.filter(other_key(key)), k)]
            holds_key(list.filter(other_key(key)), k) <==> holds_key(list, k) && k != key,
{
    let kept = list.filter(other_key(key));
    assert forall|w: EbpfMonitorConfig| #![trigger holds_watch(kept, w)]
        holds_watch(kept, w) <==> holds_watch(list, w) && key_of(w) != key by {
        if holds_watch(kept, w) {
            let i = choose|i: int| 0 <= i < kept.len() && same_watch(#[trigger] kept[i], w);
            assert(kept.contains(kept[i]));
            lemma_filter_members(list, other_key(key), kept[i]);
            let j = choose|j: int| 0 <= j < list.len() && list[j] == kept[i];
            assert(same_watch(list[j], w));
        }
        if holds_watch(list, w) && key_of(w) != key {
            let j = choose|j: int| 0 <= j < list.len() && same_watch(#[trigger] list[j], w);
            assert(list.contains(list[j]));
            lemma_filter_members(list, other_key(key), list[j]);
            let i = choose|i: int| 0 <= i < kept.len() && kept[i] == list[j];
            assert(same_watch(kept[i], w));
        }
    }
    assert forall|k: Seq<u8>| #![trigger holds_key(kept, k)]
        holds_key(kept, k) <==> holds_key(list, k) && k != key by {
        if holds_key(kept, k) {
            let i = choose|i: int| 0 <= i < kept.len() && key_of(#[trigger] kept[i]) == k;
            assert(kept.contains(kept[i]));
            lemma_filter_members(list, other_key(key), kept[i]);
            let j = choose|j: int| 0 <= j < list.len() && list[j] == kept[i];
            assert(key_of(list[j]) == k);
        }
        if holds_key(list, k) && k != key {
            let j = choose|j: int| 0 <= j < list.len() && key_of(#[trigger] list[j]) == k;
            assert(list.contains(list[j]));
            lemma_filter_members(list, other_key(key), list[j]);
            let i = choose|i: int| 0 <= i < kept.len() && kept[i] == list[j];
            assert(key_of(kept[i]) == k);
        }
    }
}

/// The mirror follows the kernel. Whatever a step on the watch list comes
/// to, the keys that the manager remembers afterwards are the keys that the
/// kernel holds afterwards, if they were before; and the manager stays sound.
pub proof fn lemma_mirror_tracks_kernel(
    manager: ManagerModel,
    kernel: Set<Seq<u8>>,
    op: MonitorOp,
    succeeded: bool,
)
    requires
        manager.wf(),
        keys_of(manager.watched) == kernel,
    ensures
        manager.recorded(op, succeeded).wf(),
        keys_of(manager.recorded(op, succeeded).watched) == kernel_after(kernel, op, succeeded),
{
    let after = manager.recorded(op, succeeded);
    if succeeded {
        match op {
            MonitorOp::Unwatch(watch) => {
                let key = key_of(watch);
                lemma_forget_key(manager.watched, key);
                lemma_filter_keeps_distinct_keys(manager.watched, other_key(key));
                assert(keys_of(after.watched) =~= kernel.remove(key));
            },
            MonitorOp::Watch(watch) => {
                let key = key_of(watch);
                let rest = manager.watched.filter(other_key(key));
                lemma_forget_key(manager.watched, key);
                lemma_filter_keeps_distinct_keys(manager.watched, other_key(key));
                lemma_push_watch(rest, watch);
                assert(keys_of(after.watched) =~= kernel.insert(key));
            },
            _ => {},
        }
    }
}

/// The watches of a list that took in one more, under a key it did not hold.
proof fn lemma_push_watch(list: Seq<EbpfMonitorConfig>, watch: EbpfMonitorConfig)
    requires
        distinct_keys(list),
        !holds_key(list, key_of(watch)),
    ensures
        distinct_keys(list.push(watch)),
        forall|w: EbpfMonitorConfig|
            #![trigger holds_watch(list.push(watch), w)]
            holds_watch(list.push(watch), w) <==> holds_watch(list, w) || same_watch(watch, w),
        forall|k: Seq<u8>|
            #![trigger holds_key(list.push(watch), k)]
            holds_key(list.push(watch), k) <==> holds_key(list, k) || k == key_of(watch),
{
    let out = list.push(watch);
    assert forall|i: int, j: int| 0 <= i < j < out.len() implies key_of(out[i]) != key_of(
        out[j],
    ) by {
        if j < list.len() {
            assert(out[i] == list[i] && out[j] == list[j]);
        } else {
            assert(out[i] == list[i]);
            assert(key_of(list[i]) != key_of(watch));
        }
    }
    assert forall|w: EbpfMonitorConfig| #![trigger holds_watch(out, w)]
        holds_watch(out, w) <==> holds_watch(list, w) || same_watch(watch, w) by {
        if holds_watch(out, w) {
            let i = choose|i: int| 0 <= i < out.len() && same_watch(#[trigger] out[i], w);
            if i < list.len() {
                assert(same_watch(list[i], w));
            }
        }
        if holds_watch(list, w) {
            let i = choose|i: int| 0 <= i < list.len() && same_watch(#[trigger] list[i], w);
            assert(same_watch(out[i], w));
        }
        if same_watch(watch, w) {
            assert(same_watch(out[list.len() as int], w));
        }
    }
    assert forall|k: Seq<u8>| #![trigger holds_key(out, k)]
        holds_key(out, k) <==> holds_key(list, k) || k == key_of(watch) by {
        if holds_key(out, k) {
            let i = choose|i: int| 0 <= i < out.len() && key_of(#[trigger] out[i]) == k;
            if i < list.len() {
                assert(key_of(list[i]) == k);
            }
        }
        if holds_key(list, k) {
            let i = choose|i: int| 0 <= i < list.len() && key_of(#[trigger] list[i]) == k;
            assert(key_of(out[i]) == k);
        }
        if k == key_of(watch) {
            assert(key_of(out[list.len() as int]) == k);
        }
    }
}

/// The watches that a configuration asks for carry no key twice, each
/// stands for a process that asks for it, and together they carry the keys
/// of all such processes.
pub proof fn lemma_desired_watches(processes: Seq<ProcessConfig>)
    ensures
        distinct_keys(desired_watches(processes)),
        keys_of(desired_watches(processes)) == desired_keys(processes),
    decreases processes.len(),
{
    let desired = desired_watches(processes);
    if processes.len() == 0 {
        assert(keys_of(desired) =~= desired_keys(processes));
    } else {
        let rest = processes.drop_last();
        let last = processes.last();
        let before = desired_watches(rest);
        lemma_desired_watches(rest);
        if wants_watch(last) && !holds_key(before, key_of(watch_of(last))) {
            lemma_push_watch(before, watch_of(last));
        }
        assert forall|k: Seq<u8>| keys_of(desired).contains(k) <==> desired_keys(
            processes,
        ).contains(k) by {
            assert(keys_of(before).contains(k) == desired_keys(rest).contains(k));
            if desired_keys(processes).contains(k) {
                let i = choose|i: int|
                    0 <= i < processes.len() && wants_watch(#[trigger] processes[i]) && watch_key(
                        processes[i].command@,
                    ) == k;
                if i < rest.len() {
                    assert(rest[i] == processes[i]);
                    assert(desired_keys(rest).contains(k));
                }
            }
            if desired_keys(rest).contains(k) {
                let i = choose|i: int|
                    0 <= i < rest.len() && wants_watch(#[trigger] rest[i]) && watch_key(
                        rest[i].command@,
                    ) == k;
                assert(processes[i] == rest[i]);
            }
            if wants_watch(last) && k == key_of(watch_of(last)) {
                assert(processes[processes.len() - 1] == last);
            }
        }
        assert(keys_of(desired) =~= desired_keys(processes));
    }
}

/// Carrying out one list of steps after another is carrying out both.
proof fn lemma_settled_in_turn(
    manager: ManagerModel,
    kernel: Set<Seq<u8>>,
    first: Seq<MonitorOp>,
    then: Seq<MonitorOp>,
)
    ensures
        manager.settled(kernel, first + then) == manager.settled(kernel, first).0.settled(
            manager.settled(kernel, first).1,
            then,
        ),
    decreases then.len(),
{
    if then.len() == 0 {
        assert(first + then =~= first);
    } else {
        lemma_settled_in_turn(manager, kernel, first, then.drop_last());
        assert((first + then).drop_last() =~= first + then.drop_last());
        assert((first + then).last() == then.last());
    }
}

/// The mirror follows the kernel through any list of steps that succeed.
pub proof fn lemma_settled_tracks_kernel(
    manager: ManagerModel,
    kernel: Set<Seq<u8>>,
    ops: Seq<MonitorOp>,
)
    requires
        manager.wf(),
        keys_of(manager.watched) == kernel,
    ensures
        manager.settled(kernel, ops).0.wf(),
        keys_of(manager.settled(kernel, ops).0.watched) == manager.settled(kernel, ops).1,
        manager.settled(kernel, ops).0.running == manager.running,
        manager.settled(kernel, ops).0.ebpf_available == manager.ebpf_available,
    decreases ops.len(),
{
    if ops.len() > 0 {
        lemma_settled_tracks_kernel(manager, kernel, ops.drop_last());
        let (before, list) = manager.settled(kernel, ops.drop_last());
        lemma_mirror_tracks_kernel(before, list, ops.last(), true);
    }
}

proof fn lemma_unwatch_all(manager: ManagerModel, kernel: Set<Seq<u8>>, gone: Seq<EbpfMonitorConfig>)
    ensures
        forall|w: EbpfMonitorConfig|
            #![trigger holds_watch(manager.settled(kernel, unwatch_steps(gone)).0.watched, w)]
            holds_watch(
                manager.settled(
                    kernel,
                    unwatch_steps(gone),
                ).0.watched,
                w,
            ) <==> holds_watch(manager.watched, w) && !holds_key(gone, key_of(w)),
    decreases gone.len(),
{
    let ops = unwatch_steps(gone);
    if gone.len() > 0 {
        let rest = gone.drop_last();
        let rest_ops = unwatch_steps(rest);
        lemma_unwatch_all(manager, kernel, rest);
        assert(ops.drop_last() =~= rest_ops);
        assert(ops.last() == unwatch_of(gone.last()));
        let before = manager.settled(kernel, rest_ops).0;
        let key = key_of(gone.last());
        lemma_forget_key(before.watched, key);
        let after = manager.settled(kernel, ops).0;
        assert(after.watched == before.watched.filter(other_key(key)));
        assert forall|w: EbpfMonitorConfig| #![trigger holds_watch(after.watched, w)]
            holds_watch(after.watched, w) <==> holds_watch(manager.watched, w) && !holds_key(
                gone,
                key_of(w),
            ) by {
            assert(holds_watch(after.watched, w) <==> holds_watch(before.watched, w) && key_of(w)
                != key);
            if holds_key(gone, key_of(w)) {
                let i = choose|i: int| 0 <= i < gone.len() && key_of(#[trigger] gone[i]) == key_of(w);
                if i < rest.len() {
                    assert(key_of(rest[i]) == key_of(w));
                }
            }
            if holds_key(rest, key_of(w)) {
                let i = choose|i: int| 0 <= i < rest.len() && key_of(#[trigger] rest[i]) == key_of(w);
                assert(key_of(gone[i]) == key_of(w));
            }
            if key_of(w) == key {
                assert(key_of(gone[gone.len() - 1]) == key_of(w));
            }
        }
    }
}

proof fn lemma_watch_all(manager: ManagerModel, kernel: Set<Seq<u8>>, added: Seq<EbpfMonitorConfig>)
    requires
        distinct_keys(manager.watched),
        distinct_keys(added),
    ensures
        distinct_keys(
            manager.settled(kernel, watch_steps(added)).0.watched,
        ),
        forall|w: EbpfMonitorConfig|
            #![trigger holds_watch(manager.settled(kernel, watch_steps(added)).0.watched, w)]
            holds_watch(
                manager.settled(
                    kernel,
                    watch_steps(added),
                ).0.watched,
                w,
            ) <==> (holds_watch(manager.watched, w) && !holds_key(added, key_of(w)))
                || holds_watch(added, w),
    decreases added.len(),
{
    let ops = watch_steps(added);
    if added.len() > 0 {
        let rest = added.drop_last();
        let last = added.last();
        let rest_ops = watch_steps(rest);
        assert forall|i: int, j: int| 0 <= i < j < rest.len() implies key_of(rest[i]) != key_of(
            rest[j],
        ) by {
            assert(rest[i] == added[i] && rest[j] == added[j]);
        }
        lemma_watch_all(manager, kernel, rest);
        assert(ops.drop_last() =~= rest_ops);
        assert(ops.last() == watch_op_of(last));
        let before = manager.settled(kernel, rest_ops).0;
        let key = key_of(last);
        let cleared = before.watched.filter(other_key(key));
        lemma_forget_key(before.watched, key);
        lemma_filter_keeps_distinct_keys(before.watched, other_key(key));
        lemma_push_watch(cleared, last);
        let after = manager.settled(kernel, ops).0;
        assert(after.watched == cleared.push(last));
        assert forall|w: EbpfMonitorConfig| #![trigger holds_watch(after.watched, w)]
            holds_watch(after.watched, w) <==> (holds_watch(manager.watched, w) && !holds_key(
                added,
                key_of(w),
            )) || holds_watch(added, w) by {
            assert(holds_watch(after.watched, w) <==> holds_watch(cleared, w) || same_watch(last, w));
            assert(holds_watch(cleared, w) <==> holds_watch(before.watched, w) && key_of(w) != key);
            if holds_key(added, key_of(w)) {
                let i = choose|i: int| 0 <= i < added.len() && key_of(#[trigger] added[i]) == key_of(w);
                if i < rest.len() {
                    assert(key_of(rest[i]) == key_of(w));
                }
            }
            if holds_key(rest, key_of(w)) {
                let i = choose|i: int| 0 <= i < rest.len() && key_of(#[trigger] rest[i]) == key_of(w);
                assert(key_of(added[i]) == key_of(w));
            }
            if key_of(w) == key {
                assert(key_of(added[added.len() - 1]) == key_of(w));
            }
            if holds_watch(added, w) {
                let i = choose|i: int| 0 <= i < added.len() && same_watch(#[trigger] added[i], w);
                if i < rest.len() {
                    assert(same_watch(rest[i], w));
                    assert(key_of(added[i]) != key_of(added[added.len() - 1]));
                }
            }
            if holds_watch(rest, w) {
                let i = choose|i: int| 0 <= i < rest.len() && same_watch(#[trigger] rest[i], w);
                assert(same_watch(added[i], w));
                assert(key_of(added[i]) != key_of(added[added.len() - 1]));
            }
            if same_watch(last, w) {
                assert(same_watch(added[added.len() - 1], w));
            }
        }
    }
}

/// Steps on monitor tasks leave the watch list alone.
proof fn lemma_task_steps_change_nothing(
    manager: ManagerModel,
    kernel: Set<Seq<u8>>,
    ops: Seq<MonitorOp>,
)
    requires
        forall|i: int| 0 <= i < ops.len() ==> !(#[trigger] ops[i] is Watch) && !(ops[i] is Unwatch),
    ensures
        manager.settled(kernel, ops) == (manager, kernel),
    decreases ops.len(),
{
    if ops.len() > 0 {
        let rest = ops.drop_last();
        assert forall|i: int| 0 <= i < rest.len() implies !(#[trigger] rest[i] is Watch) && !(
        rest[i] is Unwatch) by {
            assert(rest[i] == ops[i]);
        }
        lemma_task_steps_change_nothing(manager, kernel, rest);
        assert(!(ops[ops.len() - 1] is Watch));
    }
}

proof fn lemma_task_plan_spares_watches(
    manager: ManagerModel,
    processes: Seq<ProcessConfig>,
    finished: Seq<String>,
)
    ensures
        forall|i: int|
            0 <= i < manager.task_plan(processes, finished).len() ==> !(
            #[trigger] manager.task_plan(processes, finished)[i] is Watch) && !(manager.task_plan(
                processes,
                finished,
            )[i] is Unwatch),
{
    let tasks = desired_tasks(processes);
    let stops = manager.running.filter(not_desired(tasks)).map_values(|name: String| stop_of(name));
    let fresh = tasks.filter(needs_start(manager.running, finished));
    let starts = fresh.map_values(|process: ProcessConfig| start_of(process));
    let ops = manager.task_plan(processes, finished);
    lemma_desired_tasks(processes);
    assert forall|i: int| 0 <= i < ops.len() implies !(#[trigger] ops[i] is Watch) && !(
    ops[i] is Unwatch) by {
        if i < stops.len() {
            assert(ops[i] == stops[i]);
        } else {
            let j = i - stops.len();
            assert(ops[i] == starts[j]);
            assert(fresh.contains(fresh[j]));
            tasks.lemma_filter_contains_rev(needs_start(manager.running, finished), fresh[j]);
            let k = choose|k: int| 0 <= k < tasks.len() && tasks[k] == fresh[j];
            assert(wants_task(tasks[k]));
        }
    }
}

/// What the manager remembers after a reconciliation whose steps all
/// succeeded: the watches that the configuration asks for, no more, no less.
proof fn lemma_settled_watches(
    manager: ManagerModel,
    processes: Seq<ProcessConfig>,
    finished: Seq<String>,
    kernel: Set<Seq<u8>>,
)
    requires
        manager.wf(),
        manager.ebpf_available,
    ensures
        forall|w: EbpfMonitorConfig|
            #![trigger holds_watch(manager.reconciled(processes).settled(kernel, manager.plan(processes, finished)).0.watched, w)]
            holds_watch(
                manager.reconciled(processes).settled(
                    kernel,
                    manager.plan(processes, finished),
                ).0.watched,
                w,
            ) <==> holds_watch(desired_watches(processes), w),
{
    let start = manager.reconciled(processes);
    let desired = desired_watches(processes);
    let watched = manager.watched;
    let gone = watched.filter(missing_from(desired));
    let added = desired.filter(missing_from(watched));
    let unwatches = unwatch_steps(gone);
    let watches = watch_steps(added);
    let tasks = manager.task_plan(processes, finished);
    assert(manager.plan(processes, finished) =~= (unwatches + watches) + tasks);
    lemma_settled_in_turn(start, kernel, unwatches + watches, tasks);
    lemma_settled_in_turn(start, kernel, unwatches, watches);
    let (first, list1) = start.settled(kernel, unwatches);
    let (second, list2) = first.settled(list1, watches);
    lemma_task_plan_spares_watches(manager, processes, finished);
    lemma_task_steps_change_nothing(second, list2, tasks);
    lemma_unwatch_all(start, kernel, gone);
    lemma_desired_watches(processes);
    lemma_filter_keeps_distinct_keys(desired, missing_from(watched));
    lemma_forget_distinct(start, kernel, gone);
    lemma_watch_all(first, list1, added);
    let last = second.watched;
    assert forall|w: EbpfMonitorConfig| #![trigger holds_watch(last, w)]
        holds_watch(last, w) <==> holds_watch(desired, w) by {
        if holds_watch(first.watched, w) && !holds_key(added, key_of(w)) {
            let j = choose|j: int| 0 <= j < watched.len() && same_watch(#[trigger] watched[j], w);
            let e = watched[j];
            if missing_from(desired)(e) {
                assert(watched.contains(e));
                lemma_filter_members(watched, missing_from(desired), e);
                let x = choose|x: int| 0 <= x < gone.len() && gone[x] == e;
                assert(key_of(gone[x]) == key_of(w));
            }
            let i = choose|i: int| 0 <= i < desired.len() && same_watch(#[trigger] desired[i], e);
            assert(same_watch(desired[i], w));
        }
        if holds_watch(added, w) {
            let x = choose|x: int| 0 <= x < added.len() && same_watch(#[trigger] added[x], w);
            assert(added.contains(added[x]));
            lemma_filter_members(desired, missing_from(watched), added[x]);
            let i = choose|i: int| 0 <= i < desired.len() && desired[i] == added[x];
            assert(same_watch(desired[i], w));
        }
        if holds_watch(desired, w) {
            let i = choose|i: int| 0 <= i < desired.len() && same_watch(#[trigger] desired[i], w);
            let d = desired[i];
            if missing_from(watched)(d) {
                assert(desired.contains(d));
                lemma_filter_members(desired, missing_from(watched), d);
                let x = choose|x: int| 0 <= x < added.len() && added[x] == d;
                assert(same_watch(added[x], w));
            } else {
                let j = choose|j: int| 0 <= j < watched.len() && same_watch(#[trigger] watched[j], d);
                let e = watched[j];
                assert(same_watch(watched[j], w));
                if holds_key(gone, key_of(w)) {
                    let x = choose|x: int| 0 <= x < gone.len() && key_of(#[trigger] gone[x]) == key_of(w);
                    assert(gone.contains(gone[x]));
                    lemma_filter_members(watched, missing_from(desired), gone[x]);
                    let y = choose|y: int| 0 <= y < watched.len() && watched[y] == gone[x];
                    if y < j {
                        assert(key_of(watched[y]) != key_of(watched[j]));
                    }
                    if j < y {
                        assert(key_of(watched[j]) != key_of(watched[y]));
                    }
                    assert(same_watch(desired[i], e));
                }
                if holds_key(added, key_of(w)) {
                    let x = choose|x: int| 0 <= x < added.len() && key_of(#[trigger] added[x]) == key_of(w);
                    assert(added.contains(added[x]));
                    lemma_filter_members(desired, missing_from(watched), added[x]);
                    let y = choose|y: int| 0 <= y < desired.len() && desired[y] == added[x];
                    if y < i {
                        assert(key_of(desired[y]) != key_of(desired[i]));
                    }
                    if i < y {
                        assert(key_of(desired[i]) != key_of(desired[y]));
                    }
                }
            }
        }
    }
}

proof fn lemma_forget_distinct(manager: ManagerModel, kernel: Set<Seq<u8>>, gone: Seq<EbpfMonitorConfig>)
    requires
        distinct_keys(manager.watched),
    ensures
        distinct_keys(
            manager.settled(kernel, unwatch_steps(gone)).0.watched,
        ),
    decreases gone.len(),
{
    let ops = unwatch_steps(gone);
    if gone.len() > 0 {
        let rest = gone.drop_last();
        let rest_ops = unwatch_steps(rest);
        lemma_forget_distinct(manager, kernel, rest);
        assert(ops.drop_last() =~= rest_ops);
        assert(ops.last() == unwatch_of(gone.last()));
        let before = manager.settled(kernel, rest_ops).0;
        lemma_filter_keeps_distinct_keys(before.watched, other_key(key_of(gone.last())));
    }
}

/// Kernel set convergence. When every step of a reconciliation has been
/// carried out with success, the kernel's watch list holds the keys of the
/// executables of all enabled processes that the exit tracepoint watches,
/// and no others, provided that the manager knew what the list held before.
/// The manager knows what it holds afterwards.
pub proof fn lemma_reconcile_converges(
    manager: ManagerModel,
    processes: Seq<ProcessConfig>,
    finished: Seq<String>,
    kernel: Set<Seq<u8>>,
)
    requires
        manager.wf(),
        manager.ebpf_available,
        keys_of(manager.watched) == kernel,
    ensures
        ({
            let (after, list) = manager.reconciled(processes).settled(
                kernel,
                manager.plan(processes, finished),
            );
            &&& list == desired_keys(processes)
            &&& keys_of(after.watched) == list
            &&& after.wf()
        }),
{
    let start = manager.reconciled(processes);
    let plan = manager.plan(processes, finished);
    let (after, list) = start.settled(kernel, plan);
    let desired = desired_watches(processes);
    crate::monitor_manager::lemma_reconciled_wf(manager, processes);
    lemma_settled_tracks_kernel(start, kernel, plan);
    lemma_settled_watches(manager, processes, finished, kernel);
    lemma_desired_watches(processes);
    assert forall|k: Seq<u8>| keys_of(after.watched).contains(k) <==> keys_of(desired).contains(
        k,
    ) by {
        if holds_key(after.watched, k) {
            let i = choose|i: int| 0 <= i < after.watched.len() && key_of(#[trigger] after.watched[i]) == k;
            assert(same_watch(after.watched[i], after.watched[i]));
            assert(holds_watch(after.watched, after.watched[i]));
            let j = choose|j: int| 0 <= j < desired.len() && same_watch(#[trigger] desired[j], after.watched[i]);
            assert(key_of(desired[j]) == k);
        }
        if holds_key(desired, k) {
            let j = choose|j: int| 0 <= j < desired.len() && key_of(#[trigger] desired[j]) == k;
            assert(same_watch(desired[j], desired[j]));
            assert(holds_watch(desired, desired[j]));
            assert(holds_watch(after.watched, desired[j]));
            let i = choose|i: int| 0 <= i < after.watched.len() && same_watch(#[trigger] after.watched[i], desired[j]);
            assert(key_of(after.watched[i]) == k);
        }
    }
    assert(keys_of(after.watched) =~= keys_of(desired));
}

/// Reconciler idempotence. After a reconciliation whose steps all succeeded,
/// a second one for the same configuration plans no step at all, as long as
/// no monitor task has ended by itself in between.
pub proof fn lemma_reconcile_is_idempotent(
    manager: ManagerModel,
    processes: Seq<ProcessConfig>,
    finished: Seq<String>,
    kernel: Set<Seq<u8>>,
)
    requires
        manager.wf(),
    ensures
        manager.reconciled(processes).settled(kernel, manager.plan(processes, finished)).0.plan(
            processes,
            Seq::empty(),
        ).len() == 0,
{
    let start = manager.reconciled(processes);
    let plan = manager.plan(processes, finished);
    let after = start.settled(kernel, plan).0;
    let desired = desired_watches(processes);
    let tasks = desired_tasks(processes);
    lemma_settled_shape(start, kernel, plan);
    if manager.ebpf_available {
        lemma_settled_watches(manager, processes, finished, kernel);
        assert forall|i: int| 0 <= i < after.watched.len() implies !missing_from(desired)(
            #[trigger] after.watched[i],
        ) by {
            assert(same_watch(after.watched[i], after.watched[i]));
            assert(holds_watch(after.watched, after.watched[i]));
        }
        after.watched.lemma_all_neg_filter_empty(missing_from(desired));
        assert forall|j: int| 0 <= j < desired.len() implies !missing_from(after.watched)(
            #[trigger] desired[j],
        ) by {
            assert(same_watch(desired[j], desired[j]));
            assert(holds_watch(desired, desired[j]));
            assert(holds_watch(after.watched, desired[j]));
        }
        desired.lemma_all_neg_filter_empty(missing_from(after.watched));
    }
    let kept = manager.running.filter(is_desired(tasks));
    let fresh = tasks.filter(not_running(manager.running));
    let started = fresh.map_values(|process: ProcessConfig| name_of(process));
    let running = after.running;
    assert(running == kept + started);
    assert forall|i: int| 0 <= i < running.len() implies !not_desired(tasks)(
        #[trigger] running[i],
    ) by {
        if i < kept.len() {
            assert(running[i] == kept[i]);
            manager.running.lemma_filter_pred(is_desired(tasks), i);
        } else {
            let j = i - kept.len();
            assert(running[i] == fresh[j].name);
            assert(fresh.contains(fresh[j]));
            tasks.lemma_filter_contains_rev(not_running(manager.running), fresh[j]);
            let k = choose|k: int| 0 <= k < tasks.len() && tasks[k] == fresh[j];
            assert(tasks[k].name@ == running[i]@);
        }
    }
    running.lemma_all_neg_filter_empty(not_desired(tasks));
    assert forall|k: int| 0 <= k < tasks.len() implies !needs_start(running, Seq::empty())(
        #[trigger] tasks[k],
    ) by {
        let task = tasks[k];
        if name_set(manager.running).contains(task.name@) {
            let r = choose|r: int| 0 <= r < manager.running.len() && #[trigger] manager.running[r]@ == task.name@;
            assert(is_desired(tasks)(manager.running[r]));
            manager.running.lemma_filter_contains(is_desired(tasks), r);
            let x = choose|x: int| 0 <= x < kept.len() && kept[x] == manager.running[r];
            assert(running[x]@ == task.name@);
        } else {
            tasks.lemma_filter_contains(not_running(manager.running), k);
            let x = choose|x: int| 0 <= x < fresh.len() && fresh[x] == task;
            assert(running[kept.len() + x]@ == task.name@);
        }
        assert(name_set(running).contains(task.name@));
    }
    tasks.lemma_all_neg_filter_empty(needs_start(running, Seq::empty()));
}

/// Steps on the watch list leave the monitor tasks alone.
proof fn lemma_settled_shape(manager: ManagerModel, kernel: Set<Seq<u8>>, ops: Seq<MonitorOp>)
    ensures
        manager.settled(kernel, ops).0.running == manager.running,
        manager.settled(kernel, ops).0.ebpf_available == manager.ebpf_available,
    decreases ops.len(),
{
    if ops.len() > 0 {
        lemma_settled_shape(manager, kernel, ops.drop_last());
    }
}

/// The names of the enabled processes that ask for a monitor task.
pub open spec fn task_names(processes: Seq<ProcessConfig>) -> Set<Seq<char>> {
    Set::new(
        |name: Seq<char>|
            exists|i: int|
                0 <= i < processes.len() && wants_task(#[trigger] processes[i])
                    && processes[i].name@ == name,
    )
}

/// After a reconciliation the processes that have a monitor task are the
/// enabled processes that ask for one.
pub proof fn lemma_tasks_match_configuration(manager: ManagerModel, processes: Seq<ProcessConfig>)
    ensures
        name_set(manager.reconciled(processes).running) == task_names(processes),
{
    let tasks = desired_tasks(processes);
    let kept = manager.running.filter(is_desired(tasks));
    let fresh = tasks.filter(not_running(manager.running));
    let started = fresh.map_values(|process: ProcessConfig| name_of(process));
    let running = manager.reconciled(processes).running;
    lemma_desired_tasks(processes);
    assert forall|name: Seq<char>| name_set(running).contains(name) <==> task_names(
        processes,
    ).contains(name) by {
        if name_set(running).contains(name) {
            let x = choose|x: int| 0 <= x < running.len() && #[trigger] running[x]@ == name;
            if x < kept.len() {
                assert(running[x] == kept[x]);
                manager.running.lemma_filter_pred(is_desired(tasks), x);
            } else {
                let y = x - kept.len();
                assert(running[x] == fresh[y].name);
                assert(fresh.contains(fresh[y]));
                tasks.lemma_filter_contains_rev(not_running(manager.running), fresh[y]);
                let k = choose|k: int| 0 <= k < tasks.len() && tasks[k] == fresh[y];
                assert(tasks[k].name@ == name);
            }
            let k = choose|k: int| 0 <= k < tasks.len() && #[trigger] tasks[k].name@ == name;
            assert(processes.contains(tasks[k]));
            let i = choose|i: int| 0 <= i < processes.len() && processes[i] == tasks[k];
            assert(wants_task(processes[i]) && processes[i].name@ == name);
        }
        if task_names(processes).contains(name) {
            let i = choose|i: int|
                0 <= i < processes.len() && wants_task(#[trigger] processes[i])
                    && processes[i].name@ == name;
            assert(holds_process(tasks, processes[i].name@));
            let k = choose|k: int| 0 <= k < tasks.len() && #[trigger] tasks[k].name@ == name;
            if name_set(manager.running).contains(name) {
                let r = choose|r: int| 0 <= r < manager.running.len() && #[trigger] manager.running[r]@ == name;
                assert(is_desired(tasks)(manager.running[r]));
                manager.running.lemma_filter_contains(is_desired(tasks), r);
                let x = choose|x: int| 0 <= x < kept.len() && kept[x] == manager.running[r];
                assert(running[x]@ == name);
            } else {
                tasks.lemma_filter_contains(not_running(manager.running), k);
                let x = choose|x: int| 0 <= x < fresh.len() && fresh[x] == tasks[k];
                assert(running[kept.len() + x]@ == name);
            }
        }
    }
    assert(name_set(running) =~= task_names(processes));
}

} // verus!
