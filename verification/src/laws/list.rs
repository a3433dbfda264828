//! Laws of the flow that triggers a list of jobs.

use crate::error::TaskError;
use crate::exchange::{
    ActionView, HeaderView, RaftReqView, ReplyView, RunRequestView, SeqRange, SequenceRequestView,
    SequenceResult,
};
use crate::laws::values::{addresses, in_error, on_its_way, told};
use crate::manager::{
    ignored_tasks, joined, wrapped_tasks, Registry, TaskFlowView, TaskManagerReqView,
    TaskManagerView,
};
use crate::model::{
    JobInfoView, JobTaskView, SelectView, TaskStatusType, TaskWrapView, TriggerItemView,
};
use crate::task_list::{initial_tasks, settled, TaskListEnd, TriggerTaskListView};
use vstd::multiset::Multiset;
use vstd::prelude::*;

verus! {

/// Where the flow stands once `replies` have come in, one after the other, each at its second.
pub open spec fn drive(
    flow: TriggerTaskListView,
    replies: Seq<(ReplyView, u32)>,
) -> TriggerTaskListView
    decreases replies.len(),
{
    if replies.len() == 0 {
        flow
    } else {
        drive(flow, replies.drop_last()).resume(replies.last().0, replies.last().1)
    }
}

/// The tasks of due jobs have consecutive ids, follow the order of the jobs, and are recorded
/// as not sent out yet, under the address that is fixed for them.
pub proof fn task_ids_are_consecutive(items: Seq<TriggerItemView>, start: u64)
    requires
        start + items.len() <= u64::MAX,
    ensures
        initial_tasks(items, start).len() == items.len(),
        forall|i: int|
            0 <= i < items.len() ==> {
                let (task, job) = #[trigger] initial_tasks(items, start)[i];
                &&& task.task_id == start + i
                &&& task.job_id == items[i].job.id
                &&& task.trigger_time == items[i].trigger_time
                &&& task.instance_addr == items[i].fix_addr
                &&& task.trigger_message.len() == 0
                &&& task.status == TaskStatusType::Init
                &&& task.finish_time == 0
                &&& job == items[i].job
            },
        forall|i: int, j: int|
            0 <= i < j < items.len() ==> (#[trigger] initial_tasks(items, start)[i]).0.task_id < (
            #[trigger] initial_tasks(items, start)[j]).0.task_id,
{
    assert forall|i: int| 0 <= i < items.len() implies (#[trigger] initial_tasks(
        items,
        start,
    )[i]).0.instance_addr == items[i].fix_addr by {
        if items[i].fix_addr.len() == 0 {
            assert(items[i].fix_addr =~= Seq::<char>::empty());
        }
    }
}

/// The ids of tasks.
pub open spec fn ids_of(tasks: Seq<JobTaskView>) -> Multiset<u64> {
    tasks.map_values(|t: JobTaskView| t.task_id).to_multiset()
}

/// The ids of tasks that come with their jobs.
pub open spec fn ids_of_pairs(tasks: Seq<(JobTaskView, JobInfoView)>) -> Multiset<u64> {
    tasks.map_values(|t: (JobTaskView, JobInfoView)| t.0.task_id).to_multiset()
}

/// The ids of tasks that come with their instances.
pub open spec fn ids_of_wraps(wraps: Seq<TaskWrapView>) -> Multiset<u64> {
    wraps.map_values(|w: TaskWrapView| w.task.task_id).to_multiset()
}

/// Each task either goes out, unchanged and with all instances of its application, or is given
/// up; never both, and none is lost.
pub proof fn each_task_goes_one_way(
    registry: Registry,
    tasks: Seq<(JobTaskView, JobInfoView)>,
    selects: Seq<SelectView>,
    now: u32,
)
    requires
        selects.len() == tasks.len(),
    ensures
        wrapped_tasks(registry, tasks, selects).len() + ignored_tasks(
            registry,
            tasks,
            selects,
            now,
        ).len() == tasks.len(),
        ids_of_wraps(wrapped_tasks(registry, tasks, selects)).add(
            ids_of(ignored_tasks(registry, tasks, selects, now)),
        ) == ids_of_pairs(tasks),
        forall|i: int|
            0 <= i < tasks.len() ==> if registry.dom().contains((#[trigger] tasks[i]).1.app) && !(
            selects[i] is Empty) {
                wrapped_tasks(registry, tasks, selects).contains(
                    TaskWrapView {
                        task: tasks[i].0,
                        job: tasks[i].1,
                        select: selects[i],
                        app_addrs: registry[tasks[i].1.app],
                    },
                )
            } else {
                ignored_tasks(registry, tasks, selects, now).contains(
                    in_error(tasks[i].0, "not found app instance addr"@, now),
                )
            },
    decreases tasks.len(),
{
    broadcast use vstd::seq_lib::group_to_multiset_ensures;

    let wraps = wrapped_tasks(registry, tasks, selects);
    let ignored = ignored_tasks(registry, tasks, selects, now);
    let wrap_id = |w: TaskWrapView| w.task.task_id;
    let pair_id = |t: (JobTaskView, JobInfoView)| t.0.task_id;
    let id = |t: JobTaskView| t.task_id;
    if tasks.len() == 0 {
        assert(wraps.map_values(wrap_id) =~= Seq::empty());
        assert(ignored.map_values(id) =~= Seq::empty());
        assert(tasks.map_values(pair_id) =~= Seq::empty());
        assert(ids_of_wraps(wraps).add(ids_of(ignored)) =~= ids_of_pairs(tasks));
    } else {
        let tasks0 = tasks.drop_last();
        let selects0 = selects.drop_last();
        each_task_goes_one_way(registry, tasks0, selects0, now);
        let wraps0 = wrapped_tasks(registry, tasks0, selects0);
        let ignored0 = ignored_tasks(registry, tasks0, selects0, now);
        assert(tasks.map_values(pair_id) =~= tasks0.map_values(pair_id).push(
            tasks.last().0.task_id,
        ));
        if registry.dom().contains(tasks.last().1.app) && !(selects.last() is Empty) {
            assert(wraps.map_values(wrap_id) =~= wraps0.map_values(wrap_id).push(
                tasks.last().0.task_id,
            ));
            assert(wraps[wraps0.len() as int] == wraps.last());
        } else {
            assert(ignored.map_values(id) =~= ignored0.map_values(id).push(
                tasks.last().0.task_id,
            ));
            assert(ignored[ignored0.len() as int] == ignored.last());
        }
        assert(ids_of_wraps(wraps).add(ids_of(ignored)) =~= ids_of_pairs(tasks));
        assert forall|w: TaskWrapView| wraps0.contains(w) implies wraps.contains(w) by {
            let k = choose|k: int| 0 <= k < wraps0.len() && wraps0[k] == w;
            assert(wraps[k] == w);
        }
        assert forall|t: JobTaskView| ignored0.contains(t) implies ignored.contains(t) by {
            let k = choose|k: int| 0 <= k < ignored0.len() && ignored0[k] == t;
            assert(ignored[k] == t);
        }
        assert forall|i: int| 0 <= i < tasks.len() implies if registry.dom().contains(
            (#[trigger] tasks[i]).1.app,
        ) && !(selects[i] is Empty) {
            wraps.contains(
                TaskWrapView {
                    task: tasks[i].0,
                    job: tasks[i].1,
                    select: selects[i],
                    app_addrs: registry[tasks[i].1.app],
                },
            )
        } else {
            ignored.contains(in_error(tasks[i].0, "not found app instance addr"@, now))
        } by {
            if i < tasks0.len() {
                assert(tasks0[i] == tasks[i]);
                assert(selects0[i] == selects[i]);
            }
        }
    }
}

/// A task that goes out belongs to a known application and has had an instance picked for it; one
/// that is given up is in error, finished, and says why.
pub proof fn only_runnable_tasks_go_out(
    registry: Registry,
    tasks: Seq<(JobTaskView, JobInfoView)>,
    selects: Seq<SelectView>,
    now: u32,
)
    requires
        selects.len() == tasks.len(),
    ensures
        forall|k: int|
            0 <= k < wrapped_tasks(registry, tasks, selects).len() ==> {
                let wrap = #[trigger] wrapped_tasks(registry, tasks, selects)[k];
                &&& registry.dom().contains(wrap.job.app)
                &&& !(wrap.select is Empty)
                &&& wrap.app_addrs == registry[wrap.job.app]
                &&& tasks.contains((wrap.task, wrap.job))
            },
        forall|k: int|
            0 <= k < ignored_tasks(registry, tasks, selects, now).len() ==> {
                let task = #[trigger] ignored_tasks(registry, tasks, selects, now)[k];
                &&& task.status == TaskStatusType::Error
                &&& task.finish_time == now
                &&& task.trigger_message == "not found app instance addr"@
            },
    decreases tasks.len(),
{
    if tasks.len() > 0 {
        let tasks0 = tasks.drop_last();
        only_runnable_tasks_go_out(registry, tasks0, selects.drop_last(), now);
        assert(tasks[tasks.len() - 1] == tasks.last());
        assert forall|t: (JobTaskView, JobInfoView)| tasks0.contains(t) implies tasks.contains(
            t,
        ) by {
            let k = choose|k: int| 0 <= k < tasks0.len() && tasks0[k] == t;
            assert(tasks[k] == t);
        }
        let wraps = wrapped_tasks(registry, tasks, selects);
        let wraps0 = wrapped_tasks(registry, tasks0, selects.drop_last());
        assert forall|k: int| 0 <= k < wraps.len() implies {
            let wrap = #[trigger] wraps[k];
            &&& registry.dom().contains(wrap.job.app)
                &&& !(wrap.select is Empty)
            &&& wrap.app_addrs == registry[wrap.job.app]
            &&& tasks.contains((wrap.task, wrap.job))
        } by {
            if k < wraps0.len() {
                assert(wraps[k] == wraps0[k]);
            }
        }
        let ignored = ignored_tasks(registry, tasks, selects, now);
        let ignored0 = ignored_tasks(registry, tasks0, selects.drop_last(), now);
        assert forall|k: int| 0 <= k < ignored.len() implies {
            let task = #[trigger] ignored[k];
            &&& task.status == TaskStatusType::Error
            &&& task.finish_time == now
            &&& task.trigger_message == "not found app instance addr"@
        } by {
            if k < ignored0.len() {
                assert(ignored[k] == ignored0[k]);
            }
        }
    }
}

/// The places, in order, of the tasks that can go out, or, where `going` is false, of those that
/// cannot.
pub open spec fn places(
    registry: Registry,
    tasks: Seq<(JobTaskView, JobInfoView)>,
    selects: Seq<SelectView>,
    going: bool,
) -> Seq<int>
    decreases tasks.len(),
{
    if tasks.len() == 0 {
        Seq::empty()
    } else {
        let before = places(registry, tasks.drop_last(), selects.drop_last(), going);
        if (registry.dom().contains(tasks.last().1.app) && !(selects.last() is Empty)) == going {
            before.push(tasks.len() - 1)
        } else {
            before
        }
    }
}

/// Both lists keep the order of the tasks, and are complementary: there are two strictly growing
/// lists of places that together hold each place among the tasks once; the tasks that go out are
/// those at the places of the one, the tasks that are given up those at the places of the other,
/// both in order.
pub proof fn order_is_kept(
    registry: Registry,
    tasks: Seq<(JobTaskView, JobInfoView)>,
    selects: Seq<SelectView>,
    now: u32,
)
    requires
        selects.len() == tasks.len(),
    ensures
        ({
            let wraps = wrapped_tasks(registry, tasks, selects);
            let ignored = ignored_tasks(registry, tasks, selects, now);
            let out = places(registry, tasks, selects, true);
            let up = places(registry, tasks, selects, false);
            &&& out.len() == wraps.len()
            &&& up.len() == ignored.len()
            &&& out.len() + up.len() == tasks.len()
            &&& forall|i: int| 0 <= i < tasks.len() ==> out.contains(i) != #[trigger] up.contains(i)
            &&& forall|k: int, l: int| 0 <= k < l < out.len() ==> out[k] < out[l]
            &&& forall|k: int, l: int| 0 <= k < l < up.len() ==> up[k] < up[l]
            &&& forall|k: int|
                0 <= k < out.len() ==> 0 <= #[trigger] out[k] < tasks.len() && registry.dom().contains(
                    tasks[out[k]].1.app,
                ) && !(selects[out[k]] is Empty) && wraps[k] == TaskWrapView {
                    task: tasks[out[k]].0,
                    job: tasks[out[k]].1,
                    select: selects[out[k]],
                    app_addrs: registry[tasks[out[k]].1.app],
                }
            &&& forall|k: int|
                0 <= k < up.len() ==> 0 <= #[trigger] up[k] < tasks.len() && !(registry.dom().contains(
                    tasks[up[k]].1.app,
                ) && !(selects[up[k]] is Empty)) && ignored[k] == in_error(tasks[up[k]].0, "not found app instance addr"@, now)
        }),
    decreases tasks.len(),
{
    if tasks.len() > 0 {
        let tasks0 = tasks.drop_last();
        let selects0 = selects.drop_last();
        order_is_kept(registry, tasks0, selects0, now);
        let out0 = places(registry, tasks0, selects0, true);
        let up0 = places(registry, tasks0, selects0, false);
        let out = places(registry, tasks, selects, true);
        let up = places(registry, tasks, selects, false);
        let last = tasks.len() - 1;
        let goes = registry.dom().contains(tasks.last().1.app) && !(selects.last() is Empty);
        lemma_contains_push(out0, last);
        lemma_contains_push(up0, last);
        assert(out == if goes {
            out0.push(last)
        } else {
            out0
        });
        assert(up == if goes {
            up0
        } else {
            up0.push(last)
        });
        assert(!out0.contains(last));
        assert(!up0.contains(last));
        assert forall|i: int| 0 <= i < tasks.len() implies out.contains(i) != #[trigger] up.contains(
            i,
        ) by {
            if i < last {
                assert(out0.contains(i) != up0.contains(i));
            }
        }
    }
}

proof fn lemma_contains_push(s: Seq<int>, last: int)
    ensures
        forall|i: int| #[trigger] s.push(last).contains(i) <==> s.contains(i) || i == last,
{
    assert forall|i: int| #[trigger] s.push(last).contains(i) <==> s.contains(i) || i == last by {
        if s.contains(i) {
            let k = choose|k: int| 0 <= k < s.len() && s[k] == i;
            assert(s.push(last)[k] == i);
        }
        if i == last {
            assert(s.push(last)[s.len() as int] == i);
        }
        if s.push(last).contains(i) && i != last {
            let k = choose|k: int| 0 <= k < s.push(last).len() && s.push(last)[k] == i;
            assert(s[k] == i);
        }
    }
}

/// Joining two lists of tasks one after the other is joining the first and then the second.
pub proof fn joining_distributes(
    registry: Registry,
    xs: Seq<(JobTaskView, JobInfoView)>,
    ys: Seq<(JobTaskView, JobInfoView)>,
    x_selects: Seq<SelectView>,
    y_selects: Seq<SelectView>,
    now: u32,
)
    requires
        x_selects.len() == xs.len(),
        y_selects.len() == ys.len(),
    ensures
        wrapped_tasks(registry, xs + ys, x_selects + y_selects) == wrapped_tasks(
            registry,
            xs,
            x_selects,
        ) + wrapped_tasks(registry, ys, y_selects),
        ignored_tasks(registry, xs + ys, x_selects + y_selects, now) == ignored_tasks(
            registry,
            xs,
            x_selects,
            now,
        ) + ignored_tasks(registry, ys, y_selects, now),
    decreases ys.len(),
{
    if ys.len() == 0 {
        assert(xs + ys =~= xs);
        assert(x_selects + y_selects =~= x_selects);
    } else {
        joining_distributes(
            registry,
            xs,
            ys.drop_last(),
            x_selects,
            y_selects.drop_last(),
            now,
        );
        assert((xs + ys).drop_last() =~= xs + ys.drop_last());
        assert((x_selects + y_selects).drop_last() =~= x_selects + y_selects.drop_last());
    }
}

/// How many targets the tasks before task number `i` have in all.
pub open spec fn targets_before(wraps: Seq<TaskWrapView>, i: nat) -> nat
    decreases i,
{
    if i == 0 {
        0
    } else {
        targets_before(wraps, (i - 1) as nat) + addresses(wraps[i - 1].select).len()
    }
}

/// What becomes of a task whose targets give `answers`, in order and each at its second.
///
/// A task that goes to every instance runs whatever they answer; one that goes to a single
/// instance runs where that instance takes it.
pub open spec fn outcome(
    wrap: TaskWrapView,
    answers: Seq<(Result<(), Seq<char>>, u32)>,
) -> JobTaskView {
    match wrap.select {
        SelectView::Empty => wrap.task,
        SelectView::All(_) => on_its_way(wrap.task),
        _ => match answers[0].0 {
            Ok(_) => on_its_way(wrap.task),
            Err(message) => in_error(wrap.task, message, answers[0].1),
        },
    }
}

/// The answers, among those of all targets, that are of the targets of task number `i`.
pub open spec fn answers_of(
    wraps: Seq<TaskWrapView>,
    answers: Seq<(Result<(), Seq<char>>, u32)>,
    i: int,
) -> Seq<(Result<(), Seq<char>>, u32)> {
    answers.subrange(
        targets_before(wraps, i as nat) as int,
        targets_before(wraps, (i + 1) as nat) as int,
    )
}

/// What becomes of each task when the targets give `answers`, in order.
pub open spec fn outcomes(
    wraps: Seq<TaskWrapView>,
    answers: Seq<(Result<(), Seq<char>>, u32)>,
) -> Seq<JobTaskView> {
    Seq::new(wraps.len(), |i: int| outcome(wraps[i], answers_of(wraps, answers, i)))
}

/// The answers of instances as replies.
pub open spec fn run_replies(answers: Seq<(Result<(), Seq<char>>, u32)>) -> Seq<(ReplyView, u32)> {
    Seq::new(answers.len(), |k: int| (ReplyView::Run(answers[k].0), answers[k].1))
}

/// The tasks in `done` have become what the answers make of them.
spec fn done_right(
    wraps: Seq<TaskWrapView>,
    done: Seq<JobTaskView>,
    answers: Seq<(Result<(), Seq<char>>, u32)>,
) -> bool {
    &&& done.len() <= wraps.len()
    &&& forall|i: int|
        0 <= i < done.len() ==> #[trigger] done[i] == outcome(
            wraps[i],
            answers_of(wraps, answers, i),
        )
}

/// The flow stands where it should once `answers` have come in.
spec fn on_course(
    flow: TriggerTaskListView,
    header: HeaderView,
    wraps: Seq<TaskWrapView>,
    answers: Seq<(Result<(), Seq<char>>, u32)>,
) -> bool {
    match flow {
        TriggerTaskListView::Run { header: h, wraps: w, done, index } => {
            &&& h == header
            &&& w == wraps
            &&& done_right(wraps, done, answers)
            &&& done.len() < wraps.len()
            &&& index < wraps[done.len() as int].select.targets().len()
            &&& targets_before(wraps, done.len()) + index == answers.len()
        },
        TriggerTaskListView::StoreDone { done } => {
            &&& done_right(wraps, done, answers)
            &&& done.len() == wraps.len()
            &&& wraps.len() > 0
            &&& targets_before(wraps, wraps.len()) == answers.len()
        },
        TriggerTaskListView::Finished { end } => {
            &&& end == TaskListEnd::Completed
            &&& wraps.len() == 0
            &&& answers.len() == 0
        },
        _ => false,
    }
}

proof fn lemma_targets_monotone(wraps: Seq<TaskWrapView>, i: nat, j: nat)
    requires
        i <= j,
    ensures
        targets_before(wraps, i) <= targets_before(wraps, j),
    decreases j,
{
    if i < j {
        lemma_targets_monotone(wraps, i, (j - 1) as nat);
    }
}

/// More answers do not change what the earlier ones made of the tasks that are done.
proof fn lemma_done_right_extends(
    wraps: Seq<TaskWrapView>,
    done: Seq<JobTaskView>,
    answers: Seq<(Result<(), Seq<char>>, u32)>,
    more: Seq<(Result<(), Seq<char>>, u32)>,
)
    requires
        done_right(wraps, done, answers),
        answers.is_prefix_of(more),
        targets_before(wraps, done.len()) <= answers.len(),
    ensures
        done_right(wraps, done, more),
{
    assert forall|i: int| 0 <= i < done.len() implies #[trigger] done[i] == outcome(
        wraps[i],
        answers_of(wraps, more, i),
    ) by {
        lemma_targets_monotone(wraps, (i + 1) as nat, done.len());
        lemma_targets_monotone(wraps, i as nat, (i + 1) as nat);
        assert(answers_of(wraps, more, i) =~= answers_of(wraps, answers, i));
    }
}

proof fn lemma_run_from_on_course(
    header: HeaderView,
    wraps: Seq<TaskWrapView>,
    done: Seq<JobTaskView>,
    answers: Seq<(Result<(), Seq<char>>, u32)>,
)
    requires
        done_right(wraps, done, answers),
        targets_before(wraps, done.len()) == answers.len(),
        done.len() == 0 ==> answers.len() == 0,
    ensures
        on_course(TriggerTaskListView::run_from(header, wraps, done), header, wraps, answers),
    decreases wraps.len() - done.len(),
{
    let n = done.len() as int;
    if done.len() < wraps.len() && wraps[n].select.targets().len() == 0 {
        let next = done.push(wraps[n].unsent());
        assert(targets_before(wraps, next.len()) == answers.len());
        assert(done_right(wraps, next, answers)) by {
            assert forall|i: int| 0 <= i < next.len() implies #[trigger] next[i] == outcome(
                wraps[i],
                answers_of(wraps, answers, i),
            ) by {
                if i < n {
                    assert(next[i] == done[i]);
                }
            }
        }
        lemma_run_from_on_course(header, wraps, next, answers);
    }
}

/// One more answer keeps the flow on course.
proof fn lemma_answer_keeps_course(
    flow: TriggerTaskListView,
    header: HeaderView,
    wraps: Seq<TaskWrapView>,
    answers: Seq<(Result<(), Seq<char>>, u32)>,
    answer: (Result<(), Seq<char>>, u32),
)
    requires
        on_course(flow, header, wraps, answers),
        answers.len() < targets_before(wraps, wraps.len()),
    ensures
        on_course(
            flow.resume(ReplyView::Run(answer.0), answer.1),
            header,
            wraps,
            answers.push(answer),
        ),
{
    let more = answers.push(answer);
    assert(flow is Run);
    if let TriggerTaskListView::Run { done, index, .. } = flow {
        let n = done.len() as int;
        lemma_done_right_extends(wraps, done, answers, more);
        if index + 1 >= wraps[n].select.targets().len() {
            let next = done.push(wraps[n].answered(answer.0, answer.1));
            assert(targets_before(wraps, next.len()) == more.len());
            assert(done_right(wraps, next, more)) by {
                assert forall|i: int| 0 <= i < next.len() implies #[trigger] next[i] == outcome(
                    wraps[i],
                    answers_of(wraps, more, i),
                ) by {
                    if i < n {
                        assert(next[i] == done[i]);
                    } else {
                        let own = answers_of(wraps, more, i);
                        assert(own.len() == wraps[n].select.targets().len());
                        assert(own.last() == answer);
                        if !(wraps[n].select is All) {
                            assert(own[0] == answer);
                        }
                    }
                }
            }
            lemma_run_from_on_course(header, wraps, next, more);
        }
    }
}

proof fn lemma_on_course(
    header: HeaderView,
    wraps: Seq<TaskWrapView>,
    answers: Seq<(Result<(), Seq<char>>, u32)>,
)
    requires
        answers.len() <= targets_before(wraps, wraps.len()),
    ensures
        on_course(
            drive(
                TriggerTaskListView::run_from(header, wraps, Seq::empty()),
                run_replies(answers),
            ),
            header,
            wraps,
            answers,
        ),
    decreases answers.len(),
{
    let start = TriggerTaskListView::run_from(header, wraps, Seq::empty());
    if answers.len() == 0 {
        lemma_run_from_on_course(header, wraps, Seq::empty(), answers);
    } else {
        let before = answers.drop_last();
        lemma_on_course(header, wraps, before);
        assert(run_replies(answers).drop_last() =~= run_replies(before));
        lemma_answer_keeps_course(
            drive(start, run_replies(before)),
            header,
            wraps,
            before,
            answers.last(),
        );
        assert(before.push(answers.last()) =~= answers);
    }
}

/// The tasks go out in order, each to its targets in order, the next request following the answer
/// to the one before; every target of every task is asked.
pub proof fn requests_go_out_in_order(
    header: HeaderView,
    wraps: Seq<TaskWrapView>,
    answers: Seq<(Result<(), Seq<char>>, u32)>,
    i: nat,
    j: nat,
)
    requires
        i < wraps.len(),
        j < addresses(wraps[i as int].select).len(),
        answers.len() == targets_before(wraps, i) + j,
    ensures
        drive(
            TriggerTaskListView::run_from(header, wraps, Seq::empty()),
            run_replies(answers),
        ).action() == ActionView::RunJob(
            RunRequestView {
                addr: addresses(wraps[i as int].select)[j as int],
                header,
                param: told(
                    wraps[i as int].task.task_id,
                    wraps[i as int].job,
                    wraps[i as int].task.trigger_time,
                ),
            },
        ),
{
    lemma_targets_monotone(wraps, i + 1, wraps.len());
    lemma_on_course(header, wraps, answers);
    let flow = drive(TriggerTaskListView::run_from(header, wraps, Seq::empty()), run_replies(answers));
    if let TriggerTaskListView::Run { done, index, .. } = flow {
        if done.len() < i {
            lemma_targets_monotone(wraps, done.len() + 1, i);
        } else if done.len() > i {
            lemma_targets_monotone(wraps, i + 1, done.len());
        }
    }
}

/// The requests that send the tasks out, in order.
pub open spec fn requests_of(header: HeaderView, wraps: Seq<TaskWrapView>) -> Seq<RunRequestView>
    decreases wraps.len(),
{
    if wraps.len() == 0 {
        Seq::empty()
    } else {
        let wrap = wraps.last();
        requests_of(header, wraps.drop_last()) + Seq::new(
            addresses(wrap.select).len(),
            |j: int|
                RunRequestView {
                    addr: addresses(wrap.select)[j],
                    header,
                    param: told(wrap.task.task_id, wrap.job, wrap.task.trigger_time),
                },
        )
    }
}

proof fn lemma_targets_of_prefix(wraps: Seq<TaskWrapView>, more: Seq<TaskWrapView>, i: nat)
    requires
        i <= wraps.len(),
    ensures
        targets_before(wraps + more, i) == targets_before(wraps, i),
    decreases i,
{
    if i > 0 {
        lemma_targets_of_prefix(wraps, more, (i - 1) as nat);
    }
}

proof fn lemma_request_at(header: HeaderView, wraps: Seq<TaskWrapView>, i: nat, j: nat)
    requires
        i < wraps.len(),
        j < wraps[i as int].select.targets().len(),
    ensures
        targets_before(wraps, i) + j < requests_of(header, wraps).len(),
        requests_of(header, wraps)[(targets_before(wraps, i) + j) as int] == (RunRequestView {
            addr: wraps[i as int].select.targets()[j as int],
            header,
            param: wraps[i as int].param(),
        }),
    decreases wraps.len(),
{
    let init = wraps.drop_last();
    lemma_requests_len(header, init);
    assert(init + seq![wraps.last()] =~= wraps);
    lemma_targets_of_prefix(init, seq![wraps.last()], i);
    if i < init.len() {
        lemma_request_at(header, init, i, j);
    }
}

proof fn lemma_requests_len(header: HeaderView, wraps: Seq<TaskWrapView>)
    ensures
        requests_of(header, wraps).len() == targets_before(wraps, wraps.len()),
    decreases wraps.len(),
{
    if wraps.len() > 0 {
        let init = wraps.drop_last();
        lemma_requests_len(header, init);
        assert(init + seq![wraps.last()] =~= wraps);
        lemma_targets_of_prefix(init, seq![wraps.last()], init.len());
    }
}

/// As long as there is a target that has not answered, the flow sends the request after those that
/// were answered; there are as many requests as targets.
pub proof fn each_request_follows_the_answer_before(
    header: HeaderView,
    wraps: Seq<TaskWrapView>,
    answers: Seq<(Result<(), Seq<char>>, u32)>,
)
    requires
        answers.len() < requests_of(header, wraps).len(),
    ensures
        drive(
            TriggerTaskListView::run_from(header, wraps, Seq::empty()),
            run_replies(answers),
        ).action() == ActionView::RunJob(requests_of(header, wraps)[answers.len() as int]),
        requests_of(header, wraps).len() == targets_before(wraps, wraps.len()),
{
    lemma_requests_len(header, wraps);
    lemma_on_course(header, wraps, answers);
    let flow = drive(
        TriggerTaskListView::run_from(header, wraps, Seq::empty()),
        run_replies(answers),
    );
    if let TriggerTaskListView::Run { done, index, .. } = flow {
        lemma_request_at(header, wraps, done.len(), index);
    }
}

/// Sending out two lists one after the other is sending out the first and then the second: the
/// requests are those of the first followed by those of the second, and so is what becomes of the
/// tasks.
pub proof fn sending_distributes(
    header: HeaderView,
    xs: Seq<TaskWrapView>,
    ys: Seq<TaskWrapView>,
    x_answers: Seq<(Result<(), Seq<char>>, u32)>,
    y_answers: Seq<(Result<(), Seq<char>>, u32)>,
)
    requires
        x_answers.len() == targets_before(xs, xs.len()),
        y_answers.len() == targets_before(ys, ys.len()),
    ensures
        requests_of(header, xs + ys) == requests_of(header, xs) + requests_of(header, ys),
        outcomes(xs + ys, x_answers + y_answers) == outcomes(xs, x_answers) + outcomes(
            ys,
            y_answers,
        ),
{
    lemma_requests_distribute(header, xs, ys);
    let all = xs + ys;
    let answers = x_answers + y_answers;
    let parts = outcomes(xs, x_answers) + outcomes(ys, y_answers);
    assert forall|i: int| 0 <= i < all.len() implies #[trigger] outcomes(all, answers)[i]
        == parts[i] by {
        if i < xs.len() {
            lemma_targets_of_prefix(xs, ys, i as nat);
            lemma_targets_of_prefix(xs, ys, (i + 1) as nat);
            lemma_targets_monotone(xs, i as nat, (i + 1) as nat);
            lemma_targets_monotone(xs, (i + 1) as nat, xs.len());
            assert(answers_of(all, answers, i) =~= answers_of(xs, x_answers, i));
        } else {
            let k = i - xs.len();
            lemma_targets_of_suffix(xs, ys, k as nat);
            lemma_targets_of_suffix(xs, ys, (k + 1) as nat);
            lemma_targets_monotone(ys, k as nat, (k + 1) as nat);
            lemma_targets_monotone(ys, (k + 1) as nat, ys.len());
            assert(answers_of(all, answers, i) =~= answers_of(ys, y_answers, k));
        }
    }
    assert(outcomes(all, answers) =~= parts);
}

proof fn lemma_targets_of_suffix(xs: Seq<TaskWrapView>, ys: Seq<TaskWrapView>, k: nat)
    requires
        k <= ys.len(),
    ensures
        targets_before(xs + ys, xs.len() + k) == targets_before(xs, xs.len()) + targets_before(
            ys,
            k,
        ),
    decreases k,
{
    if k == 0 {
        lemma_targets_of_prefix(xs, ys, xs.len());
    } else {
        lemma_targets_of_suffix(xs, ys, (k - 1) as nat);
        assert((xs + ys)[xs.len() + k - 1] == ys[k - 1]);
    }
}

proof fn lemma_requests_distribute(
    header: HeaderView,
    xs: Seq<TaskWrapView>,
    ys: Seq<TaskWrapView>,
)
    ensures
        requests_of(header, xs + ys) == requests_of(header, xs) + requests_of(header, ys),
    decreases ys.len(),
{
    if ys.len() == 0 {
        assert(xs + ys =~= xs);
        assert(requests_of(header, xs) + requests_of(header, ys) =~= requests_of(header, xs));
    } else {
        lemma_requests_distribute(header, xs, ys.drop_last());
        assert((xs + ys).drop_last() =~= xs + ys.drop_last());
        assert(requests_of(header, xs + ys) =~= requests_of(header, xs) + requests_of(header, ys));
    }
}

/// Once every target has answered, what became of each task is recorded, in order.
pub proof fn sent_tasks_are_recorded(
    header: HeaderView,
    wraps: Seq<TaskWrapView>,
    answers: Seq<(Result<(), Seq<char>>, u32)>,
)
    requires
        answers.len() == targets_before(wraps, wraps.len()),
    ensures
        drive(TriggerTaskListView::run_from(header, wraps, Seq::empty()), run_replies(answers)) == if
            wraps.len() == 0 {
            TriggerTaskListView::Finished { end: TaskListEnd::Completed }
        } else {
            TriggerTaskListView::StoreDone { done: outcomes(wraps, answers) }
        },
{
    lemma_on_course(header, wraps, answers);
    let flow = drive(TriggerTaskListView::run_from(header, wraps, Seq::empty()), run_replies(answers));
    match flow {
        TriggerTaskListView::Run { done, index, .. } => {
            lemma_targets_monotone(wraps, done.len() + 1, wraps.len());
        },
        TriggerTaskListView::StoreDone { done } => {
            assert(done =~= outcomes(wraps, answers));
        },
        _ => {},
    }
}

/// A task that was sent out runs or is in error, and is otherwise as it was recorded before: it is
/// in error just where it went to a single instance that did not take it, with what that instance
/// said and when.
pub proof fn sent_tasks_run_or_fail(
    wrap: TaskWrapView,
    answers: Seq<(Result<(), Seq<char>>, u32)>,
)
    requires
        !(wrap.select is Empty),
    ensures
        outcome(wrap, answers).status == TaskStatusType::Running || outcome(wrap, answers).status
            == TaskStatusType::Error,
        outcome(wrap, answers).status == TaskStatusType::Error <==> !(wrap.select is All)
            && answers[0].0 is Err,
        outcome(wrap, answers).status == TaskStatusType::Error ==> outcome(
            wrap,
            answers,
        ).trigger_message == answers[0].0->Err_0 && outcome(wrap, answers).finish_time
            == answers[0].1,
        outcome(wrap, answers).status == TaskStatusType::Running ==> outcome(
            wrap,
            answers,
        ).trigger_message == wrap.task.trigger_message && outcome(wrap, answers).finish_time
            == wrap.task.finish_time,
        outcome(wrap, answers).task_id == wrap.task.task_id,
        outcome(wrap, answers).job_id == wrap.task.job_id,
        outcome(wrap, answers).trigger_time == wrap.task.trigger_time,
        outcome(wrap, answers).instance_addr == wrap.task.instance_addr,
{
}

/// The time that an instance is told is the trigger time in milliseconds.
pub proof fn instances_are_told_milliseconds(wrap: TaskWrapView)
    ensures
        wrap.param().log_date_time matches Some(t) && t == wrap.task.trigger_time * 1000,
        wrap.param().task_id == wrap.task.task_id,
        wrap.param().job == wrap.job,
{
}

/// Whether `reply` is of the kind that the pending action asks for.
pub open spec fn answers_action(flow: TriggerTaskListView, reply: ReplyView) -> bool {
    match flow.action() {
        ActionView::SelectInstance(_) => reply is Selected,
        ActionView::Sequence(_) => reply is Sequence,
        ActionView::Raft(_) => reply is Raft,
        ActionView::BuildTaskWrap(_) => reply is Wrapped,
        ActionView::RunJob(_) => reply is Run,
        ActionView::Report(_) => reply is Reported,
        ActionView::Finish => false,
    }
}

/// How many stages lie before the end.
pub open spec fn stages_left(flow: TriggerTaskListView) -> nat {
    match flow {
        TriggerTaskListView::FetchIds { .. } => 6,
        TriggerTaskListView::StoreInit { .. } => 5,
        TriggerTaskListView::Wrap { .. } => 4,
        TriggerTaskListView::StoreIgnored { .. } => 3,
        TriggerTaskListView::Run { .. } => 2,
        TriggerTaskListView::StoreDone { .. } => 1,
        TriggerTaskListView::Finished { .. } => 0,
    }
}

/// How many answers are still awaited while tasks are sent out.
pub open spec fn answers_left(flow: TriggerTaskListView) -> int {
    match flow {
        TriggerTaskListView::Run { wraps, done, index, .. } => targets_before(wraps, wraps.len())
            - targets_before(wraps, done.len()) - index,
        _ => 0,
    }
}

/// While tasks are sent out, there is a target whose answer is awaited.
pub open spec fn awaits_target(flow: TriggerTaskListView) -> bool {
    flow matches TriggerTaskListView::Run { wraps, done, index, .. } ==> done.len() < wraps.len()
        && index < wraps[done.len() as int].select.targets().len()
}

/// Every flow comes to its end: an answer to the pending action takes it to a later stage or
/// leaves fewer answers to wait for, and no other reply moves it. There is always a target that the
/// flow waits for while it sends out.
pub proof fn every_answer_is_progress(flow: TriggerTaskListView, reply: ReplyView, now: u32)
    requires
        awaits_target(flow),
    ensures
        awaits_target(flow.resume(reply, now)),
        answers_left(flow) >= 0,
        !answers_action(flow, reply) ==> flow.resume(reply, now) == flow,
        answers_action(flow, reply) ==> stages_left(flow.resume(reply, now)) < stages_left(flow)
            || (stages_left(flow.resume(reply, now)) == stages_left(flow) && answers_left(
            flow.resume(reply, now),
        ) < answers_left(flow)),
        flow.action() is Finish <==> flow is Finished,
{
    if let TriggerTaskListView::Run { wraps, done, index, .. } = flow {
        lemma_targets_monotone(wraps, done.len() + 1, wraps.len());
        if let ReplyView::Run(result) = reply {
            let next = done.push(wraps[done.len() as int].answered(result, now));
            lemma_settled(wraps, next);
            assert(targets_before(wraps, next.len()) == targets_before(wraps, done.len())
                + wraps[done.len() as int].select.targets().len());
        }
    }
    match (flow, reply) {
        (TriggerTaskListView::Wrap { .. }, ReplyView::Wrapped(wraps, _)) => {
            lemma_settled(wraps, Seq::empty());
        },
        (TriggerTaskListView::StoreIgnored { wraps, .. }, ReplyView::Raft(_)) => {
            lemma_settled(wraps, Seq::empty());
        },
        _ => {},
    }
}

/// A flow that was started never sends out without a target to wait for, whatever it is answered.
pub proof fn started_flows_await_a_target(
    header: HeaderView,
    items: Seq<TriggerItemView>,
    replies: Seq<(ReplyView, u32)>,
)
    ensures
        awaits_target(drive(TriggerTaskListView::FetchIds { header, items }, replies)),
    decreases replies.len(),
{
    if replies.len() > 0 {
        started_flows_await_a_target(header, items, replies.drop_last());
        every_answer_is_progress(
            drive(TriggerTaskListView::FetchIds { header, items }, replies.drop_last()),
            replies.last().0,
            replies.last().1,
        );
    }
}

/// Settling passes over tasks without targets only.
proof fn lemma_settled(wraps: Seq<TaskWrapView>, done: Seq<JobTaskView>)
    requires
        done.len() <= wraps.len(),
    ensures
        done.len() <= settled(wraps, done).len() <= wraps.len(),
        targets_before(wraps, settled(wraps, done).len()) == targets_before(wraps, done.len()),
        settled(wraps, done).len() < wraps.len() ==> wraps[settled(
            wraps,
            done,
        ).len() as int].select.targets().len() > 0,
    decreases wraps.len() - done.len(),
{
    if done.len() < wraps.len() && wraps[done.len() as int].select.targets().len() == 0 {
        lemma_settled(wraps, done.push(wraps[done.len() as int].unsent()));
    }
}

/// Nothing is joined with instances or sent out before the record has taken the new tasks: where
/// the flow has come that far, it was told so while it waited for just that.
pub proof fn tasks_are_recorded_before_they_go_out(
    header: HeaderView,
    items: Seq<TriggerItemView>,
    replies: Seq<(ReplyView, u32)>,
)
    requires
        1 <= stages_left(drive(TriggerTaskListView::FetchIds { header, items }, replies)) <= 4,
    ensures
        exists|k: int|
            0 <= k < replies.len() && (#[trigger] replies[k]).0 == ReplyView::Raft(true) && drive(
                TriggerTaskListView::FetchIds { header, items },
                replies.take(k),
            ) is StoreInit,
    decreases replies.len(),
{
    let start = TriggerTaskListView::FetchIds { header, items };
    if replies.len() > 0 {
        let before = replies.drop_last();
        let flow = drive(start, before);
        assert(before =~= replies.take(replies.len() - 1));
        if flow is StoreInit {
            assert(replies[replies.len() - 1].0 == ReplyView::Raft(true));
        } else {
            tasks_are_recorded_before_they_go_out(header, items, before);
            let k = choose|k: int|
                0 <= k < before.len() && (#[trigger] before[k]).0 == ReplyView::Raft(true)
                    && drive(start, before.take(k)) is StoreInit;
            assert(replies[k] == before[k]);
            assert(replies.take(k) =~= before.take(k));
        }
    }
}

/// Where the ids cannot be had, or the record does not take the new tasks or those that no
/// instance can run, nothing goes out; the flow is over, says why, and stays so.
pub proof fn a_refusal_sends_nothing(
    flow: TriggerTaskListView,
    reply: ReplyView,
    replies: Seq<(ReplyView, u32)>,
    now: u32,
)
    requires
        match flow {
            TriggerTaskListView::FetchIds { .. } => reply is Sequence && !(reply matches
                ReplyView::Sequence(Some(SequenceResult::Range(_)))),
            TriggerTaskListView::StoreInit { .. } => reply == ReplyView::Raft(false),
            TriggerTaskListView::StoreIgnored { .. } => reply == ReplyView::Raft(false),
            _ => false,
        },
    ensures
        drive(flow.resume(reply, now), replies) == (TriggerTaskListView::Finished {
            end: match flow {
                TriggerTaskListView::FetchIds { .. } => TaskListEnd::NoTaskIds,
                TriggerTaskListView::StoreInit { .. } => TaskListEnd::TasksNotRecorded,
                _ => TaskListEnd::IgnoredNotRecorded,
            },
        }),
    decreases replies.len(),
{
    if replies.len() > 0 {
        a_refusal_sends_nothing(flow, reply, replies.drop_last(), now);
    }
}

/// Once every target has answered, whatever it answered, the flow fails just where there was
/// something to record and the record did not take it.
pub proof fn only_the_record_can_fail_the_run(
    header: HeaderView,
    wraps: Seq<TaskWrapView>,
    answers: Seq<(Result<(), Seq<char>>, u32)>,
    taken: bool,
    now: u32,
)
    requires
        answers.len() == targets_before(wraps, wraps.len()),
    ensures
        drive(
            TriggerTaskListView::run_from(header, wraps, Seq::empty()),
            run_replies(answers),
        ).resume(ReplyView::Raft(taken), now) == (TriggerTaskListView::Finished {
            end: if wraps.len() > 0 && !taken {
                TaskListEnd::ResultsNotRecorded
            } else {
                TaskListEnd::Completed
            },
        }),
{
    sent_tasks_are_recorded(header, wraps, answers);
}

/// The header that a flow holds, as long as it may still send out.
spec fn holds_header(flow: TriggerTaskListView, header: HeaderView) -> bool {
    match flow {
        TriggerTaskListView::FetchIds { header: h, .. } => h == header,
        TriggerTaskListView::StoreInit { header: h, .. } => h == header,
        TriggerTaskListView::Wrap { header: h, .. } => h == header,
        TriggerTaskListView::StoreIgnored { header: h, .. } => h == header,
        TriggerTaskListView::Run { header: h, .. } => h == header,
        _ => true,
    }
}

proof fn lemma_header_is_kept(
    flow: TriggerTaskListView,
    header: HeaderView,
    replies: Seq<(ReplyView, u32)>,
)
    requires
        holds_header(flow, header),
    ensures
        holds_header(drive(flow, replies), header),
    decreases replies.len(),
{
    if replies.len() > 0 {
        lemma_header_is_kept(flow, header, replies.drop_last());
    }
}

/// Whatever is answered, every request to an instance carries the header of the manager that
/// started the flow, the access token among it.
pub proof fn every_request_carries_the_header(
    manager: TaskManagerView,
    items: Seq<TriggerItemView>,
    replies: Seq<(ReplyView, u32)>,
)
    ensures
        manager.trigger_task_list(items) matches Ok(Some(flow)) ==> (drive(
            flow,
            replies,
        ).action() matches ActionView::RunJob(request) ==> request.header == manager.header),
{
    if let Ok(Some(flow)) = manager.trigger_task_list(items) {
        lemma_header_is_kept(flow, manager.header, replies);
    }
}

/// The flow of due jobs whose ids, from `start` on, and whose new tasks were granted, each at its
/// second.
pub open spec fn granted(
    flow: TriggerTaskListView,
    start: u64,
    times: (u32, u32),
) -> TriggerTaskListView {
    flow.resume(
        ReplyView::Sequence(Some(SequenceResult::Range(SeqRange { start }))),
        times.0,
    ).resume(ReplyView::Raft(true), times.1)
}

/// Every due job ends in the record once. When nothing is refused, the new tasks are recorded
/// first; they are joined with their instances; those that no instance can run are recorded next;
/// the others go out, under the manager's header, and what became of them is recorded last. Between
/// them the last two lists hold each id that was given out, once, and no task is left as not sent
/// out.
pub proof fn every_due_job_is_accounted_for(
    manager: TaskManagerView,
    items: Seq<TriggerItemView>,
    start: u64,
    selects: Seq<SelectView>,
    now: u32,
    times: (u32, u32),
    later: (u32, u32),
    answers: Seq<(Result<(), Seq<char>>, u32)>,
)
    requires
        items.len() > 0,
        manager.sequence_manager && manager.raft_request_route,
        start + items.len() <= u64::MAX,
        selects.len() == items.len(),
        answers.len() == targets_before(
            wrapped_tasks(manager.registry, initial_tasks(items, start), selects),
            wrapped_tasks(manager.registry, initial_tasks(items, start), selects).len(),
        ),
    ensures
        ({
            let tasks = initial_tasks(items, start);
            let wraps = wrapped_tasks(manager.registry, tasks, selects);
            let ignored = ignored_tasks(manager.registry, tasks, selects, now);
            let started = manager.trigger_task_list(items);
            let flow = started->Ok_0->Some_0;
            let ids = flow.resume(
                ReplyView::Sequence(Some(SequenceResult::Range(SeqRange { start }))),
                times.0,
            );
            let next = joined(granted(flow, start, times), manager.registry, selects, now);
            let running = if ignored.len() == 0 {
                next
            } else {
                next.resume(ReplyView::Raft(true), later.0)
            };
            let sent = drive(running, run_replies(answers));
            &&& started matches Ok(Some(_))
            &&& flow.action() == ActionView::Sequence(
                SequenceRequestView::GetDirectRange("SEQ_TASK_ID"@, items.len() as u64),
            )
            &&& ids.action() == ActionView::Raft(
                RaftReqView::UpdateTaskList(tasks.map_values(|t: (JobTaskView, JobInfoView)| t.0)),
            )
            &&& granted(flow, start, times).action() == ActionView::BuildTaskWrap(tasks)
            &&& ignored.len() > 0 ==> next.action() == ActionView::Raft(
                RaftReqView::UpdateTaskList(ignored),
            )
            &&& running == TriggerTaskListView::run_from(manager.header, wraps, Seq::empty())
            &&& wraps.len() > 0 ==> sent.action() == ActionView::Raft(
                RaftReqView::UpdateTaskList(outcomes(wraps, answers)),
            )
            &&& sent.resume(ReplyView::Raft(true), later.1) == (TriggerTaskListView::Finished {
                end: TaskListEnd::Completed,
            })
            &&& ids_of(ignored).add(ids_of(outcomes(wraps, answers))) == ids_of_pairs(tasks)
            &&& forall|k: int|
                0 <= k < wraps.len() ==> (#[trigger] outcomes(wraps, answers)[k]).status
                    != TaskStatusType::Init
        }),
{
    let tasks = initial_tasks(items, start);
    let wraps = wrapped_tasks(manager.registry, tasks, selects);
    let ignored = ignored_tasks(manager.registry, tasks, selects, now);
    only_the_record_can_fail_the_run(manager.header, wraps, answers, true, later.1);
    sent_tasks_are_recorded(manager.header, wraps, answers);
    each_task_goes_one_way(manager.registry, tasks, selects, now);
    only_runnable_tasks_go_out(manager.registry, tasks, selects, now);
    assert(outcomes(wraps, answers).map_values(|t: JobTaskView| t.task_id) =~= wraps.map_values(
        |w: TaskWrapView| w.task.task_id,
    ));
    assert(ids_of(ignored).add(ids_of(outcomes(wraps, answers))) =~= ids_of_pairs(tasks));
    assert forall|k: int| 0 <= k < wraps.len() implies (#[trigger] outcomes(
        wraps,
        answers,
    )[k]).status != TaskStatusType::Init by {
        assert(!(wraps[k].select is Empty));
        sent_tasks_run_or_fail(wraps[k], answers_of(wraps, answers, k));
    }
}

/// The task of a due job as it is first recorded: under its id, with the address that is fixed for
/// it, not sent out.
pub open spec fn first_recorded(item: TriggerItemView, task_id: u64) -> JobTaskView {
    JobTaskView {
        task_id,
        job_id: item.job.id,
        trigger_time: item.trigger_time,
        instance_addr: item.fix_addr,
        trigger_message: Seq::empty(),
        status: TaskStatusType::Init,
        finish_time: 0,
    }
}

/// The tasks of due jobs as they are first recorded, each with its job, under the ids from `start`
/// on.
pub open spec fn all_recorded(items: Seq<TriggerItemView>, start: u64) -> Seq<
    (JobTaskView, JobInfoView),
> {
    Seq::new(items.len(), |i: int| (first_recorded(items[i], (start + i) as u64), items[i].job))
}

/// Those of `tasks` that go out: their application is known and something was picked for them.
pub open spec fn going_out(
    registry: Registry,
    tasks: Seq<(JobTaskView, JobInfoView)>,
    selects: Seq<SelectView>,
) -> Seq<TaskWrapView> {
    let out = places(registry, tasks, selects, true);
    Seq::new(
        out.len(),
        |k: int|
            TaskWrapView {
                task: tasks[out[k]].0,
                job: tasks[out[k]].1,
                select: selects[out[k]],
                app_addrs: registry[tasks[out[k]].1.app],
            },
    )
}

/// Those of `tasks` that are given up: their application is unknown or nothing was picked for
/// them.
pub open spec fn staying(
    registry: Registry,
    tasks: Seq<(JobTaskView, JobInfoView)>,
    selects: Seq<SelectView>,
    now: u32,
) -> Seq<JobTaskView> {
    let up = places(registry, tasks, selects, false);
    Seq::new(up.len(), |k: int| in_error(tasks[up[k]].0, "not found app instance addr"@, now))
}

proof fn lemma_all_recorded(items: Seq<TriggerItemView>, start: u64)
    requires
        start + items.len() <= u64::MAX,
    ensures
        initial_tasks(items, start) == all_recorded(items, start),
{
    task_ids_are_consecutive(items, start);
    assert forall|i: int| 0 <= i < items.len() implies #[trigger] initial_tasks(items, start)[i]
        == all_recorded(items, start)[i] by {
        assert(initial_tasks(items, start)[i].0.trigger_message =~= Seq::<char>::empty());
    }
    assert(initial_tasks(items, start) =~= all_recorded(items, start));
}

proof fn lemma_two_ways(
    registry: Registry,
    tasks: Seq<(JobTaskView, JobInfoView)>,
    selects: Seq<SelectView>,
    now: u32,
)
    requires
        selects.len() == tasks.len(),
    ensures
        wrapped_tasks(registry, tasks, selects) == going_out(registry, tasks, selects),
        ignored_tasks(registry, tasks, selects, now) == staying(registry, tasks, selects, now),
{
    order_is_kept(registry, tasks, selects, now);
    let out = places(registry, tasks, selects, true);
    let up = places(registry, tasks, selects, false);
    let wraps = wrapped_tasks(registry, tasks, selects);
    let ignored = ignored_tasks(registry, tasks, selects, now);
    assert forall|k: int| 0 <= k < wraps.len() implies #[trigger] wraps[k] == going_out(
        registry,
        tasks,
        selects,
    )[k] by {
        assert(0 <= out[k] < tasks.len());
    }
    assert forall|k: int| 0 <= k < ignored.len() implies #[trigger] ignored[k] == staying(
        registry,
        tasks,
        selects,
        now,
    )[k] by {
        assert(0 <= up[k] < tasks.len());
    }
    assert(wraps =~= going_out(registry, tasks, selects));
    assert(ignored =~= staying(registry, tasks, selects, now));
}

/// Every task whose application is known, however many instances it lists, and for which something
/// was picked, is among those that go out, at a place of its own, and every other task is among
/// those that are given up; what goes out and what is given up are the tasks themselves, and a flow
/// that waits for its tasks to be joined goes on with just these two lists.
pub proof fn a_known_application_runs_what_was_picked(
    header: HeaderView,
    registry: Registry,
    tasks: Seq<(JobTaskView, JobInfoView)>,
    selects: Seq<SelectView>,
    now: u32,
)
    requires
        selects.len() == tasks.len(),
    ensures
        wrapped_tasks(registry, tasks, selects) == going_out(registry, tasks, selects),
        ignored_tasks(registry, tasks, selects, now) == staying(registry, tasks, selects, now),
        joined((TriggerTaskListView::Wrap { header, tasks }), registry, selects, now) == (
        TriggerTaskListView::Wrap { header, tasks }).resume(
            ReplyView::Wrapped(
                going_out(registry, tasks, selects),
                staying(registry, tasks, selects, now),
            ),
            now,
        ),
        forall|i: int|
            0 <= i < tasks.len() && registry.dom().contains((#[trigger] tasks[i]).1.app) && !(
            selects[i] is Empty) ==> places(registry, tasks, selects, true).contains(i) && !places(
                registry,
                tasks,
                selects,
                false,
            ).contains(i),
        forall|i: int|
            0 <= i < tasks.len() && !(registry.dom().contains((#[trigger] tasks[i]).1.app) && !(
            selects[i] is Empty)) ==> !places(registry, tasks, selects, true).contains(i) && places(
                registry,
                tasks,
                selects,
                false,
            ).contains(i),
{
    lemma_two_ways(registry, tasks, selects, now);
    order_is_kept(registry, tasks, selects, now);
    let out = places(registry, tasks, selects, true);
    let up = places(registry, tasks, selects, false);
    assert forall|i: int| 0 <= i < tasks.len() implies out.contains(i) == (registry.dom().contains(
        (#[trigger] tasks[i]).1.app,
    ) && !(selects[i] is Empty)) && out.contains(i) != up.contains(i) by {
        assert(out.contains(i) != up.contains(i));
        if out.contains(i) {
            let k = choose|k: int| 0 <= k < out.len() && out[k] == i;
            assert(0 <= out[k] < tasks.len());
        } else {
            let k = choose|k: int| 0 <= k < up.len() && up[k] == i;
            assert(0 <= up[k] < tasks.len());
        }
    }
}

/// A flow only joins its tasks while it waits for that.
pub proof fn joining_waits_its_turn(
    flow: TriggerTaskListView,
    registry: Registry,
    selects: Seq<SelectView>,
    now: u32,
)
    requires
        !(flow.action() is BuildTaskWrap),
    ensures
        joined(flow, registry, selects, now) == flow,
{
}

/// A request to trigger due jobs is answered by a flow of all of them, under the manager's header,
/// which asks for as many ids as there are jobs; without jobs it starts nothing, and it is refused
/// just where there are jobs and a collaborator is missing.
pub proof fn all_due_jobs_of_a_request_are_triggered(
    manager: TaskManagerView,
    items: Seq<TriggerItemView>,
)
    ensures
        ({
            let answer = manager.answer(TaskManagerReqView::TriggerTaskList(items));
            let there = manager.sequence_manager && manager.raft_request_route;
            &&& answer is Err <==> items.len() > 0 && !there
            &&& answer matches Err(error) ==> error == TaskError::CollaboratorMissing
            &&& answer == Ok::<_, TaskError>(TaskFlowView::Nothing) <==> items.len() == 0
            &&& items.len() > 0 && there ==> {
                &&& answer matches Ok(TaskFlowView::TriggerTaskList(flow))
                &&& flow == (TriggerTaskListView::FetchIds { header: manager.header, items })
                &&& flow.action() == ActionView::Sequence(
                    SequenceRequestView::GetDirectRange("SEQ_TASK_ID"@, items.len() as u64),
                )
            }
        }),
{
}

/// Once tasks have been joined with their instances, those that are given up are recorded first,
/// as they are; when that is done the flow goes on as if there had been none.
pub proof fn given_up_tasks_are_recorded_first(
    header: HeaderView,
    tasks: Seq<(JobTaskView, JobInfoView)>,
    wraps: Seq<TaskWrapView>,
    ignored: Seq<JobTaskView>,
    now: u32,
    later: u32,
    at: u32,
)
    requires
        ignored.len() > 0,
    ensures
        ({
            let wait = TriggerTaskListView::Wrap { header, tasks };
            let next = wait.resume(ReplyView::Wrapped(wraps, ignored), now);
            &&& next.action() == ActionView::Raft(RaftReqView::UpdateTaskList(ignored))
            &&& next.resume(ReplyView::Raft(true), later) == wait.resume(
                ReplyView::Wrapped(wraps, Seq::empty()),
                at,
            )
            &&& next.resume(ReplyView::Raft(false), later) == (TriggerTaskListView::Finished {
                end: TaskListEnd::IgnoredNotRecorded,
            })
        }),
{
}

/// Tasks that have been joined with their instances go out in order, each to its addresses in
/// order, under the header of the flow; while addresses are left to ask the next one is asked, and
/// when all have answered what became of each task is recorded.
pub proof fn joined_tasks_go_out(
    header: HeaderView,
    tasks: Seq<(JobTaskView, JobInfoView)>,
    wraps: Seq<TaskWrapView>,
    now: u32,
    answers: Seq<(Result<(), Seq<char>>, u32)>,
    taken: bool,
    later: u32,
)
    requires
        answers.len() <= requests_of(header, wraps).len(),
    ensures
        ({
            let start = TriggerTaskListView::Wrap { header, tasks }.resume(
                ReplyView::Wrapped(wraps, Seq::empty()),
                now,
            );
            let flow = drive(start, run_replies(answers));
            let all = answers.len() == requests_of(header, wraps).len();
            &&& !all ==> flow.action() == ActionView::RunJob(
                requests_of(header, wraps)[answers.len() as int],
            )
            &&& all && wraps.len() > 0 ==> flow.action() == ActionView::Raft(
                RaftReqView::UpdateTaskList(outcomes(wraps, answers)),
            )
            &&& all && wraps.len() == 0 ==> flow.action() == ActionView::Finish
            &&& all ==> flow.resume(ReplyView::Raft(taken), later)
                == (TriggerTaskListView::Finished {
                end: if wraps.len() > 0 && !taken {
                    TaskListEnd::ResultsNotRecorded
                } else {
                    TaskListEnd::Completed
                },
            })
        }),
{
    lemma_requests_len(header, wraps);
    if answers.len() == requests_of(header, wraps).len() {
        sent_tasks_are_recorded(header, wraps, answers);
        only_the_record_can_fail_the_run(header, wraps, answers, taken, later);
    } else {
        each_request_follows_the_answer_before(header, wraps, answers);
    }
}

/// Every due job of a request ends in the record once. When nothing is refused, the new tasks of
/// all the jobs are recorded first, in order and under consecutive ids; they are joined with their
/// instances; those whose application is unknown, or for which nothing was picked, are recorded as
/// given up; the others go out, each to its addresses, and what became of them is recorded last.
/// Between them the last two lists hold each id that was given out, once.
pub proof fn every_due_job_of_a_request_is_accounted_for(
    manager: TaskManagerView,
    items: Seq<TriggerItemView>,
    start: u64,
    selects: Seq<SelectView>,
    now: u32,
    times: (u32, u32),
    later: (u32, u32),
    answers: Seq<(Result<(), Seq<char>>, u32)>,
)
    requires
        items.len() > 0,
        manager.sequence_manager && manager.raft_request_route,
        start + items.len() <= u64::MAX,
        selects.len() == items.len(),
        answers.len() <= requests_of(
            manager.header,
            going_out(manager.registry, all_recorded(items, start), selects),
        ).len(),
    ensures
        ({
            let tasks = all_recorded(items, start);
            let wraps = going_out(manager.registry, tasks, selects);
            let ignored = staying(manager.registry, tasks, selects, now);
            let requests = requests_of(manager.header, wraps);
            let answer = manager.answer(TaskManagerReqView::TriggerTaskList(items));
            let flow = answer->Ok_0->TriggerTaskList_0;
            let range = ReplyView::Sequence(Some(SequenceResult::Range(SeqRange { start })));
            let ids = flow.resume(range, times.0);
            let stored = ids.resume(ReplyView::Raft(true), times.1);
            let next = joined(stored, manager.registry, selects, now);
            let running = if ignored.len() == 0 {
                next
            } else {
                next.resume(ReplyView::Raft(true), later.0)
            };
            let sent = drive(running, run_replies(answers));
            &&& answer matches Ok(TaskFlowView::TriggerTaskList(_))
            &&& flow.action() == ActionView::Sequence(
                SequenceRequestView::GetDirectRange("SEQ_TASK_ID"@, items.len() as u64),
            )
            &&& flow.ids_fit(range)
            &&& ids.action() == ActionView::Raft(
                RaftReqView::UpdateTaskList(
                    Seq::new(
                        items.len(),
                        |i: int| first_recorded(items[i], (start + i) as u64),
                    ),
                ),
            )
            &&& stored.action() == ActionView::BuildTaskWrap(tasks)
            &&& ignored.len() > 0 ==> next.action() == ActionView::Raft(
                RaftReqView::UpdateTaskList(ignored),
            )
            &&& answers.len() < requests.len() ==> sent.action() == ActionView::RunJob(
                requests[answers.len() as int],
            )
            &&& answers.len() == requests.len() && wraps.len() > 0 ==> sent.action()
                == ActionView::Raft(RaftReqView::UpdateTaskList(outcomes(wraps, answers)))
            &&& answers.len() == requests.len() ==> sent.resume(ReplyView::Raft(true), later.1)
                == (TriggerTaskListView::Finished { end: TaskListEnd::Completed })
            &&& answers.len() == requests.len() ==> ids_of(ignored).add(
                ids_of(outcomes(wraps, answers)),
            ) == ids_of_pairs(tasks)
        }),
{
    let tasks = all_recorded(items, start);
    let wraps = going_out(manager.registry, tasks, selects);
    let ignored = staying(manager.registry, tasks, selects, now);
    lemma_all_recorded(items, start);
    lemma_two_ways(manager.registry, tasks, selects, now);
    joined_tasks_go_out(manager.header, tasks, wraps, now, answers, true, later.1);
    each_task_goes_one_way(manager.registry, tasks, selects, now);
    assert(tasks.map_values(|t: (JobTaskView, JobInfoView)| t.0) =~= Seq::new(
        items.len(),
        |i: int| first_recorded(items[i], (start + i) as u64),
    ));
    assert(outcomes(wraps, answers).map_values(|t: JobTaskView| t.task_id) =~= wraps.map_values(
        |w: TaskWrapView| w.task.task_id,
    ));
    assert(ids_of(ignored).add(ids_of(outcomes(wraps, answers))) =~= ids_of_pairs(tasks));
}

/// The ids that come back suffice just where they can all be numbered.
pub proof fn ids_suffice_where_they_can_be_numbered(
    header: HeaderView,
    items: Seq<TriggerItemView>,
    flow: TriggerTaskListView,
    reply: ReplyView,
    start: u64,
)
    ensures
        (TriggerTaskListView::FetchIds { header, items }).ids_fit(
            ReplyView::Sequence(Some(SequenceResult::Range((SeqRange { start })))),
        ) <==> start + items.len() <= u64::MAX,
        !(reply matches ReplyView::Sequence(Some(SequenceResult::Range(_)))) ==> flow.ids_fit(reply),
        !(flow is FetchIds) ==> flow.ids_fit(reply),
{
}

} // verus!
