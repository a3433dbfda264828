//! Laws of the flow that runs one task.

use crate::error::TaskError;
use crate::exchange::{
    ActionView, HeaderView, RaftReqView, ReplyView, RunRequestView, SelectRequestView,
    SequenceRequestView, SequenceResult,
};
use crate::laws::values::{addresses, in_error, told};
use crate::manager::{TaskFlowView, TaskManagerReqView, TaskManagerView};
use crate::model::{JobInfoView, JobRunParamView, JobTaskView, SelectView, TaskStatusType};
use crate::run_task::{started_task, RunTaskView};
use vstd::prelude::*;

verus! {

/// Where the flow stands once `replies` have come in, one after the other, each at its second.
pub open spec fn drive(flow: RunTaskView, replies: Seq<(ReplyView, u32)>) -> RunTaskView
    decreases replies.len(),
{
    if replies.len() == 0 {
        flow
    } else {
        drive(flow, replies.drop_last()).resume(replies.last().0, replies.last().1)
    }
}

/// A task of `job` as it is recorded while it runs: under its id, at the address that was selected
/// for it, and without one where the address is fixed or there is more than one.
pub open spec fn running_task(
    trigger_time: u32,
    job: JobInfoView,
    select: SelectView,
    task_id: u64,
) -> JobTaskView {
    JobTaskView {
        task_id,
        job_id: job.id,
        trigger_time,
        instance_addr: match select {
            SelectView::Selected(addr) => addr,
            _ => Seq::empty(),
        },
        trigger_message: Seq::empty(),
        status: TaskStatusType::Running,
        finish_time: 0,
    }
}

/// What becomes of a task that was recorded as running: `now` is when it was recorded, `answers`
/// are those of its targets, in order and each at its second.
pub open spec fn outcome(
    task: JobTaskView,
    select: SelectView,
    now: u32,
    answers: Seq<(Result<(), Seq<char>>, u32)>,
) -> JobTaskView {
    match select {
        SelectView::Empty => in_error(task, "no instance selected"@, now),
        SelectView::All(_) => task,
        _ => match answers[0].0 {
            Ok(_) => task,
            Err(message) => in_error(task, message, answers[0].1),
        },
    }
}

/// The replies of a run that gets an instance and an id, each at its second, up to the answers of
/// its targets.
pub open spec fn replies_of(
    select: SelectView,
    task_id: u64,
    taken: bool,
    times: (u32, u32, u32),
    answers: Seq<(Result<(), Seq<char>>, u32)>,
) -> Seq<(ReplyView, u32)> {
    seq![
        (ReplyView::Selected(select), times.0),
        (ReplyView::Sequence(Some(SequenceResult::NextId(task_id))), times.1),
        (ReplyView::Raft(taken), times.2),
    ] + Seq::new(answers.len(), |k: int| (ReplyView::Run(answers[k].0), answers[k].1))
}

proof fn lemma_recorded_first(
    header: HeaderView,
    trigger_time: u32,
    job: JobInfoView,
    instance_keys: Seq<Seq<char>>,
    select: SelectView,
    task_id: u64,
    taken: bool,
    times: (u32, u32, u32),
)
    ensures
        ({
            let start = RunTaskView::Select { header, trigger_time, job, instance_keys };
            let replies = replies_of(select, task_id, taken, times, Seq::empty());
            let recorded = RunTaskView::StoreRunning {
                header,
                task: started_task(trigger_time, job, select, task_id),
                param: JobRunParamView::of_task(task_id, job, trigger_time),
                select,
            };
            &&& drive(start, replies.take(2)) == recorded
            &&& drive(start, replies) == recorded.resume(ReplyView::Raft(taken), times.2)
        }),
{
    let start = RunTaskView::Select { header, trigger_time, job, instance_keys };
    let replies = replies_of(select, task_id, taken, times, Seq::empty());
    assert(replies.take(0) =~= Seq::empty());
    assert(replies.take(1).drop_last() =~= replies.take(0));
    assert(replies.take(2).drop_last() =~= replies.take(1));
    assert(replies.drop_last() =~= replies.take(2));
    assert(drive(start, replies.take(0)) == start);
    assert(drive(start, replies.take(1)) == (RunTaskView::FetchId { header, trigger_time, job, select }));
}

/// A task that gets an instance and an id is recorded as running, goes out to its targets in
/// order, and what became of it is recorded last; whether the record took it does not matter.
pub proof fn a_task_runs_to_its_end(
    header: HeaderView,
    trigger_time: u32,
    job: JobInfoView,
    instance_keys: Seq<Seq<char>>,
    select: SelectView,
    task_id: u64,
    taken: bool,
    times: (u32, u32, u32),
    answers: Seq<(Result<(), Seq<char>>, u32)>,
)
    requires
        answers.len() <= addresses(select).len(),
    ensures
        ({
            let start = RunTaskView::Select { header, trigger_time, job, instance_keys };
            let replies = replies_of(select, task_id, taken, times, answers);
            let task = running_task(trigger_time, job, select, task_id);
            &&& drive(start, replies.take(2)).action() == ActionView::Raft(
                RaftReqView::UpdateTask(task),
            )
            &&& answers.len() < addresses(select).len() ==> drive(start, replies).action()
                == ActionView::RunJob(
                RunRequestView {
                    addr: addresses(select)[answers.len() as int],
                    header,
                    param: told(task_id, job, trigger_time),
                },
            )
            &&& answers.len() == addresses(select).len() ==> drive(start, replies)
                == RunTaskView::StoreFinal { task: outcome(task, select, times.2, answers) }
        }),
{
    let replies = replies_of(select, task_id, taken, times, answers);
    lemma_recorded_first(header, trigger_time, job, instance_keys, select, task_id, taken, times);
    let first = replies_of(select, task_id, taken, times, Seq::empty());
    assert(replies.take(2) =~= first.take(2));
    lemma_sent_in_order(header, trigger_time, job, instance_keys, select, task_id, taken, times, answers);
}

proof fn lemma_sent_in_order(
    header: HeaderView,
    trigger_time: u32,
    job: JobInfoView,
    instance_keys: Seq<Seq<char>>,
    select: SelectView,
    task_id: u64,
    taken: bool,
    times: (u32, u32, u32),
    answers: Seq<(Result<(), Seq<char>>, u32)>,
)
    requires
        answers.len() <= select.targets().len(),
    ensures
        ({
            let start = RunTaskView::Select { header, trigger_time, job, instance_keys };
            let replies = replies_of(select, task_id, taken, times, answers);
            let task = started_task(trigger_time, job, select, task_id);
            drive(start, replies) == if answers.len() < select.targets().len() {
                RunTaskView::Run {
                    header,
                    task,
                    param: JobRunParamView::of_task(task_id, job, trigger_time),
                    select,
                    index: answers.len(),
                }
            } else {
                RunTaskView::StoreFinal { task: outcome(task, select, times.2, answers) }
            }
        }),
    decreases answers.len(),
{
    let replies = replies_of(select, task_id, taken, times, answers);
    if answers.len() == 0 {
        lemma_recorded_first(header, trigger_time, job, instance_keys, select, task_id, taken, times);
        assert(replies =~= replies_of(select, task_id, taken, times, Seq::empty()));
    } else {
        let before = answers.drop_last();
        lemma_sent_in_order(header, trigger_time, job, instance_keys, select, task_id, taken, times, before);
        assert(replies.drop_last() =~= replies_of(select, task_id, taken, times, before));
        assert(replies.last() == (ReplyView::Run(answers.last().0), answers.last().1));
        if !(select is All) {
            assert(answers[0] == answers.last());
        }
    }
}

/// A task that went out runs unless it went to a single instance that did not take it, or to none;
/// a task that goes to every instance runs whatever they answer. Its id, job, trigger time and
/// address stay as they were recorded first.
pub proof fn broadcasts_always_run(
    task: JobTaskView,
    select: SelectView,
    now: u32,
    answers: Seq<(Result<(), Seq<char>>, u32)>,
)
    requires
        task.status == TaskStatusType::Running,
    ensures
        outcome(task, select, now, answers).status == TaskStatusType::Running || outcome(
            task,
            select,
            now,
            answers,
        ).status == TaskStatusType::Error,
        outcome(task, select, now, answers).status == TaskStatusType::Error <==> select is Empty
            || (!(select is All) && answers[0].0 is Err),
        outcome(task, select, now, answers).status == TaskStatusType::Running ==> outcome(
            task,
            select,
            now,
            answers,
        ) == task,
        outcome(task, select, now, answers).task_id == task.task_id,
        outcome(task, select, now, answers).job_id == task.job_id,
        outcome(task, select, now, answers).trigger_time == task.trigger_time,
        outcome(task, select, now, answers).instance_addr == task.instance_addr,
{
}

/// Without an id the task does not go out: it is recorded in error, under no id, and nothing
/// but that record and the job manager hears of it.
pub proof fn without_an_id_nothing_goes_out(
    header: HeaderView,
    trigger_time: u32,
    job: JobInfoView,
    select: SelectView,
    result: Option<SequenceResult>,
    now: u32,
    replies: Seq<(ReplyView, u32)>,
)
    requires
        !(result matches Some(SequenceResult::NextId(_))),
    ensures
        ({
            let failed = RunTaskView::FetchId { header, trigger_time, job, select }.resume(
                ReplyView::Sequence(result),
                now,
            );
            &&& failed == RunTaskView::StoreFinal {
                task: JobTaskView {
                    task_id: 0,
                    job_id: job.id,
                    trigger_time,
                    instance_addr: Seq::empty(),
                    trigger_message: "get task id error!"@,
                    status: TaskStatusType::Error,
                    finish_time: now,
                },
            }
            &&& !(drive(failed, replies).action() is RunJob)
        }),
{
    let task = JobTaskView::from_job(trigger_time, job).failed("get task id error!"@, now);
    lemma_after_the_end(RunTaskView::StoreFinal { task }, replies);
}

/// A flow whose task's end is to be recorded sends nothing out any more.
proof fn lemma_after_the_end(flow: RunTaskView, replies: Seq<(ReplyView, u32)>)
    requires
        flow is StoreFinal || flow is Report || flow is Finished,
    ensures
        drive(flow, replies) is StoreFinal || drive(flow, replies) is Report || drive(
            flow,
            replies,
        ) is Finished,
    decreases replies.len(),
{
    if replies.len() > 0 {
        lemma_after_the_end(flow, replies.drop_last());
    }
}

/// The task's end is recorded whatever it is, and the job manager is told just of errors, with the
/// time at which it is told; nothing else of the task changes after that record.
pub proof fn the_job_manager_hears_of_errors(task: JobTaskView, taken: bool, now: u32, later: u32)
    ensures
        ({
            let end = RunTaskView::StoreFinal { task };
            let next = end.resume(ReplyView::Raft(taken), now);
            let told = JobTaskView { finish_time: now, ..task };
            &&& end.action() == ActionView::Raft(RaftReqView::UpdateTask(task))
            &&& task.status == TaskStatusType::Error ==> next.action() == ActionView::Report(told)
                && next.resume(ReplyView::Reported, later) == RunTaskView::Finished { task: told }
            &&& task.status != TaskStatusType::Error ==> next == RunTaskView::Finished { task }
        }),
{
}

/// The task that a flow holds, once it has one.
pub open spec fn task_of(flow: RunTaskView) -> Option<JobTaskView> {
    match flow {
        RunTaskView::Select { .. } => None,
        RunTaskView::FetchId { .. } => None,
        RunTaskView::StoreRunning { task, .. } => Some(task),
        RunTaskView::Run { task, .. } => Some(task),
        RunTaskView::StoreFinal { task } => Some(task),
        RunTaskView::Report { task } => Some(task),
        RunTaskView::Finished { task } => Some(task),
    }
}

/// Whatever is answered, the task is of the job that was triggered, at the time at which it was
/// triggered, and is never recorded as not sent out yet.
pub proof fn the_task_is_of_the_triggered_job(
    header: HeaderView,
    trigger_time: u32,
    job: JobInfoView,
    instance_keys: Seq<Seq<char>>,
    replies: Seq<(ReplyView, u32)>,
)
    ensures
        task_of(drive(RunTaskView::Select { header, trigger_time, job, instance_keys }, replies)) matches
            Some(task) ==> task.job_id == job.id && task.trigger_time == trigger_time
            && task.status != TaskStatusType::Init,
{
    lemma_keeps_job(header, trigger_time, job, instance_keys, replies);
}

/// What a flow carries before it has a task is what was triggered.
spec fn of_trigger(flow: RunTaskView, trigger_time: u32, job: JobInfoView) -> bool {
    match flow {
        RunTaskView::Select { trigger_time: t, job: j, .. } => t == trigger_time && j == job,
        RunTaskView::FetchId { trigger_time: t, job: j, .. } => t == trigger_time && j == job,
        _ => task_of(flow) matches Some(task) && task.job_id == job.id && task.trigger_time
            == trigger_time && task.status != TaskStatusType::Init,
    }
}

proof fn lemma_keeps_job(
    header: HeaderView,
    trigger_time: u32,
    job: JobInfoView,
    instance_keys: Seq<Seq<char>>,
    replies: Seq<(ReplyView, u32)>,
)
    ensures
        of_trigger(
            drive(RunTaskView::Select { header, trigger_time, job, instance_keys }, replies),
            trigger_time,
            job,
        ),
    decreases replies.len(),
{
    if replies.len() > 0 {
        lemma_keeps_job(header, trigger_time, job, instance_keys, replies.drop_last());
    }
}

/// No instance is asked to run a task before the record was asked to take it.
pub proof fn a_task_is_recorded_before_it_goes_out(
    header: HeaderView,
    trigger_time: u32,
    job: JobInfoView,
    instance_keys: Seq<Seq<char>>,
    replies: Seq<(ReplyView, u32)>,
)
    requires
        drive(
            RunTaskView::Select { header, trigger_time, job, instance_keys },
            replies,
        ).action() is RunJob,
    ensures
        exists|k: int|
            0 <= k < replies.len() && (#[trigger] replies[k]).0 is Raft && drive(
                RunTaskView::Select { header, trigger_time, job, instance_keys },
                replies.take(k),
            ) is StoreRunning,
    decreases replies.len(),
{
    let start = RunTaskView::Select { header, trigger_time, job, instance_keys };
    if replies.len() > 0 {
        let before = replies.drop_last();
        let flow = drive(start, before);
        assert(before =~= replies.take(replies.len() - 1));
        if flow is StoreRunning {
            assert(replies[replies.len() - 1].0 is Raft);
        } else {
            a_task_is_recorded_before_it_goes_out(header, trigger_time, job, instance_keys, before);
            let k = choose|k: int|
                0 <= k < before.len() && (#[trigger] before[k]).0 is Raft && drive(
                    start,
                    before.take(k),
                ) is StoreRunning;
            assert(replies[k] == before[k]);
            assert(replies.take(k) =~= before.take(k));
        }
    }
}

/// Whether `reply` is of the kind that the pending action asks for.
pub open spec fn answers_action(flow: RunTaskView, reply: ReplyView) -> bool {
    match flow.action() {
        ActionView::SelectInstance(_) => reply is Selected,
        ActionView::Sequence(_) => reply is Sequence,
        ActionView::Raft(_) => reply is Raft,
        ActionView::BuildTaskWrap(_) => reply is Wrapped,
        ActionView::RunJob(_) => reply is Run,
        ActionView::Report(_) => reply is Reported,
        ActionView::Finish => false,
    }
}

/// How many stages lie before the end.
pub open spec fn stages_left(flow: RunTaskView) -> nat {
    match flow {
        RunTaskView::Select { .. } => 6,
        RunTaskView::FetchId { .. } => 5,
        RunTaskView::StoreRunning { .. } => 4,
        RunTaskView::Run { .. } => 3,
        RunTaskView::StoreFinal { .. } => 2,
        RunTaskView::Report { .. } => 1,
        RunTaskView::Finished { .. } => 0,
    }
}

/// How many answers are still awaited while the task is sent out.
pub open spec fn answers_left(flow: RunTaskView) -> int {
    match flow {
        RunTaskView::Run { select, index, .. } => select.targets().len() - index,
        _ => 0,
    }
}

/// Every flow comes to its end: an answer to the pending action takes it to a later stage or
/// leaves fewer answers to wait for, and no other reply moves it.
pub proof fn every_answer_is_progress(flow: RunTaskView, reply: ReplyView, now: u32)
    requires
        flow is Run ==> answers_left(flow) > 0,
    ensures
        flow.resume(reply, now) is Run ==> answers_left(flow.resume(reply, now)) > 0,
        !answers_action(flow, reply) ==> flow.resume(reply, now) == flow,
        answers_action(flow, reply) ==> stages_left(flow.resume(reply, now)) < stages_left(flow)
            || (stages_left(flow.resume(reply, now)) == stages_left(flow) && 0 <= answers_left(
            flow.resume(reply, now),
        ) < answers_left(flow)),
        flow.action() is Finish <==> flow is Finished,
{
}

/// A flow that was started never sends out without a target to wait for, whatever it is answered.
pub proof fn started_flows_await_a_target(
    header: HeaderView,
    trigger_time: u32,
    job: JobInfoView,
    instance_keys: Seq<Seq<char>>,
    replies: Seq<(ReplyView, u32)>,
)
    ensures
        ({
            let flow = drive(RunTaskView::Select { header, trigger_time, job, instance_keys }, replies);
            flow is Run ==> answers_left(flow) > 0
        }),
    decreases replies.len(),
{
    if replies.len() > 0 {
        started_flows_await_a_target(header, trigger_time, job, instance_keys, replies.drop_last());
    }
}

/// The header that a flow holds, as long as it may still send out.
spec fn holds_header(flow: RunTaskView, header: HeaderView) -> bool {
    match flow {
        RunTaskView::Select { header: h, .. } => h == header,
        RunTaskView::FetchId { header: h, .. } => h == header,
        RunTaskView::StoreRunning { header: h, .. } => h == header,
        RunTaskView::Run { header: h, .. } => h == header,
        _ => true,
    }
}

proof fn lemma_header_is_kept(
    flow: RunTaskView,
    header: HeaderView,
    replies: Seq<(ReplyView, u32)>,
)
    requires
        holds_header(flow, header),
    ensures
        holds_header(drive(flow, replies), header),
    decreases replies.len(),
{
    if replies.len() > 0 {
        lemma_header_is_kept(flow, header, replies.drop_last());
    }
}

/// Whatever is answered, every request to an instance carries the header of the manager that
/// started the flow, the access token among it.
pub proof fn every_request_carries_the_header(
    manager: TaskManagerView,
    trigger_time: u32,
    job: JobInfoView,
    replies: Seq<(ReplyView, u32)>,
)
    ensures
        manager.trigger_task(trigger_time, job) matches Ok(Some(flow)) ==> (drive(
            flow,
            replies,
        ).action() matches ActionView::RunJob(request) ==> request.header == manager.header),
{
    if let Ok(Some(flow)) = manager.trigger_task(trigger_time, job) {
        lemma_header_is_kept(flow, manager.header, replies);
    }
}

/// A flow is started just where all collaborators are there and the application is known; it asks
/// for one instance of that application for the job, and goes on with whatever is picked.
pub proof fn one_instance_is_asked_for(
    manager: TaskManagerView,
    trigger_time: u32,
    job: JobInfoView,
    select: SelectView,
    now: u32,
    replies: Seq<(ReplyView, u32)>,
)
    requires
        manager.sequence_manager && manager.job_manager && manager.raft_request_route,
        manager.registry.dom().contains(job.app),
    ensures
        ({
            let started = manager.trigger_task(trigger_time, job);
            let flow = started->Ok_0->Some_0;
            &&& started matches Ok(Some(_))
            &&& flow.action() == ActionView::SelectInstance(
                SelectRequestView {
                    app: job.app,
                    instance_keys: manager.registry[job.app],
                    router_strategy: job.router_strategy,
                    job_id: job.id,
                },
            )
            &&& flow.resume(ReplyView::Selected(select), now) == RunTaskView::FetchId {
                header: manager.header,
                trigger_time,
                job,
                select,
            }
            &&& !(drive(
                flow.resume(ReplyView::Selected(select), now),
                replies,
            ).action() is SelectInstance)
        }),
{
    let flow = RunTaskView::FetchId { header: manager.header, trigger_time, job, select };
    lemma_asked_once(flow, replies);
}

/// A request to run a task is refused just where a collaborator is missing, starts nothing just
/// where all are there and the application is unknown, and is otherwise answered by a flow that
/// asks for an instance on behalf of the job, among all that its application lists.
pub proof fn a_request_to_run_a_task_asks_for_an_instance(
    manager: TaskManagerView,
    trigger_time: u32,
    job: JobInfoView,
)
    ensures
        ({
            let answer = manager.answer(TaskManagerReqView::TriggerTask(trigger_time, job));
            let there = manager.sequence_manager && manager.job_manager
                && manager.raft_request_route;
            let known = manager.registry.dom().contains(job.app);
            &&& answer is Err <==> !there
            &&& answer matches Err(error) ==> error == TaskError::CollaboratorMissing
            &&& answer == Ok::<_, TaskError>(TaskFlowView::Nothing) <==> there && !known
            &&& there && known ==> {
                &&& answer matches Ok(TaskFlowView::RunTask(flow))
                &&& flow.action() == ActionView::SelectInstance(
                    SelectRequestView {
                        app: job.app,
                        instance_keys: manager.registry[job.app],
                        router_strategy: job.router_strategy,
                        job_id: job.id,
                    },
                )
            }
        }),
{
}

/// Whatever was picked and whatever id is given out, the task of a request is recorded as running
/// under that id, every instance that is asked to run it is told that id, and it is recorded at its
/// end under that id. The requests go to the addresses that were picked, in order and under the
/// manager's header; what the task becomes follows from the answers.
pub proof fn a_requested_task_keeps_its_id(
    manager: TaskManagerView,
    trigger_time: u32,
    job: JobInfoView,
    select: SelectView,
    task_id: u64,
    taken: bool,
    times: (u32, u32, u32),
    answers: Seq<(Result<(), Seq<char>>, u32)>,
    closing: (bool, u32, u32),
)
    requires
        manager.sequence_manager && manager.job_manager && manager.raft_request_route,
        manager.registry.dom().contains(job.app),
        answers.len() <= addresses(select).len(),
    ensures
        ({
            let answer = manager.answer(TaskManagerReqView::TriggerTask(trigger_time, job));
            let flow = answer->Ok_0->RunTask_0;
            let replies = replies_of(select, task_id, taken, times, answers);
            let task = running_task(trigger_time, job, select, task_id);
            let end = outcome(task, select, times.2, answers);
            let reported = JobTaskView { finish_time: closing.1, ..end };
            let sent = drive(flow, replies);
            let closed = sent.resume(ReplyView::Raft(closing.0), closing.1);
            &&& answer matches Ok(TaskFlowView::RunTask(_))
            &&& drive(flow, replies.take(1)).action() == ActionView::Sequence(
                SequenceRequestView::GetNextId("SEQ_TASK_ID"@),
            )
            &&& task.task_id == task_id && end.task_id == task_id && reported.task_id == task_id
            &&& drive(flow, replies.take(2)).action() == ActionView::Raft(
                RaftReqView::UpdateTask(task),
            )
            &&& answers.len() < addresses(select).len() ==> sent.action() == ActionView::RunJob(
                RunRequestView {
                    addr: addresses(select)[answers.len() as int],
                    header: manager.header,
                    param: told(task_id, job, trigger_time),
                },
            )
            &&& answers.len() == addresses(select).len() ==> {
                &&& sent.action() == ActionView::Raft(RaftReqView::UpdateTask(end))
                &&& end.status != TaskStatusType::Error ==> closed == (RunTaskView::Finished {
                    task: end,
                })
                &&& end.status == TaskStatusType::Error ==> closed.action() == ActionView::Report(
                    reported,
                ) && closed.resume(ReplyView::Reported, closing.2) == (RunTaskView::Finished {
                    task: reported,
                })
            }
        }),
{
    let header = manager.header;
    let instance_keys = manager.registry[job.app];
    let start = RunTaskView::Select { header, trigger_time, job, instance_keys };
    let replies = replies_of(select, task_id, taken, times, answers);
    let end = outcome(running_task(trigger_time, job, select, task_id), select, times.2, answers);
    a_task_runs_to_its_end(header, trigger_time, job, instance_keys, select, task_id, taken, times, answers);
    the_job_manager_hears_of_errors(end, closing.0, closing.1, closing.2);
    assert(replies.take(1).drop_last() =~= Seq::empty());
    assert(drive(start, replies.take(1).drop_last()) == start);
}

/// Where a request gets no id, its task is recorded in error, says so, and the job manager is told
/// of it; it has no id and goes nowhere.
pub proof fn a_requested_task_without_id_is_reported(
    manager: TaskManagerView,
    trigger_time: u32,
    job: JobInfoView,
    select: SelectView,
    result: Option<SequenceResult>,
    times: (u32, u32),
    closing: (bool, u32, u32),
)
    requires
        manager.sequence_manager && manager.job_manager && manager.raft_request_route,
        manager.registry.dom().contains(job.app),
        !(result matches Some(SequenceResult::NextId(_))),
    ensures
        ({
            let answer = manager.answer(TaskManagerReqView::TriggerTask(trigger_time, job));
            let picked = answer->Ok_0->RunTask_0.resume(ReplyView::Selected(select), times.0);
            let failed = picked.resume(ReplyView::Sequence(result), times.1);
            let closed = failed.resume(ReplyView::Raft(closing.0), closing.1);
            let task = JobTaskView {
                task_id: 0,
                job_id: job.id,
                trigger_time,
                instance_addr: Seq::empty(),
                trigger_message: "get task id error!"@,
                status: TaskStatusType::Error,
                finish_time: times.1,
            };
            let reported = JobTaskView { finish_time: closing.1, ..task };
            &&& failed.action() == ActionView::Raft(RaftReqView::UpdateTask(task))
            &&& closed.action() == ActionView::Report(reported)
            &&& closed.resume(ReplyView::Reported, closing.2) == (RunTaskView::Finished {
                task: reported,
            })
        }),
{
}

proof fn lemma_asked_once(flow: RunTaskView, replies: Seq<(ReplyView, u32)>)
    requires
        !(flow is Select),
    ensures
        !(drive(flow, replies) is Select),
    decreases replies.len(),
{
    if replies.len() > 0 {
        lemma_asked_once(flow, replies.drop_last());
    }
}

} // verus!
