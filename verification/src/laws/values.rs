//! Laws of tasks, picks and requests, and of what the contracts mean by their contents.

use crate::error::TaskError;
use crate::exchange::{
    run_result_view, Action, ActionView, HeaderView, JobManagerRaftReq, RaftReqView, Reply,
    ReplyView, RunRequest, SelectRequest, SelectRequestView, SequenceRequest, SequenceRequestView,
    SequenceResult,
};
use crate::group::{with_addr, AppInstanceStateGroup};
use crate::manager::{
    flow_result, request_header, run_task_result, task_list_result, TaskFlow, TaskFlowView,
    TaskManagerReq, TaskManagerReqView,
};
use crate::model::{
    AppInstanceKey, AppKey, InstanceAddrSelectResult, JobInfo, JobInfoView, JobRunParam,
    JobRunParamView, JobTaskInfo, JobTaskView, SelectView, TaskStatusType, TaskWrap, TriggerItem,
};
use crate::run_task::RunTask;
use crate::shared::views;
use crate::task_list::TriggerTaskList;
use std::sync::Arc;
use vstd::prelude::*;

verus! {

/// The addresses that a pick names, in order.
pub open spec fn addresses(select: SelectView) -> Seq<Seq<char>> {
    match select {
        SelectView::Fixed(addr) => seq![addr],
        SelectView::Selected(addr) => seq![addr],
        SelectView::All(addrs) => addrs,
        SelectView::Empty => Seq::empty(),
    }
}

/// What an instance is told of task `task_id` of `job`, triggered at second `trigger_time`.
pub open spec fn told(task_id: u64, job: JobInfoView, trigger_time: u32) -> JobRunParamView {
    JobRunParamView { task_id, job, log_date_time: Some((trigger_time * 1000) as u64) }
}

/// The task in error, with the reason in `message`, ended at second `now`.
pub open spec fn in_error(task: JobTaskView, message: Seq<char>, now: u32) -> JobTaskView {
    JobTaskView {
        task_id: task.task_id,
        job_id: task.job_id,
        trigger_time: task.trigger_time,
        instance_addr: task.instance_addr,
        trigger_message: message,
        status: TaskStatusType::Error,
        finish_time: now,
    }
}

/// The task on its way to its instances.
pub open spec fn on_its_way(task: JobTaskView) -> JobTaskView {
    JobTaskView {
        task_id: task.task_id,
        job_id: task.job_id,
        trigger_time: task.trigger_time,
        instance_addr: task.instance_addr,
        trigger_message: task.trigger_message,
        status: TaskStatusType::Running,
        finish_time: task.finish_time,
    }
}

/// A fresh task is of its job and of the time at which it was triggered, and nothing else is known
/// of it: it has no id, no address and no message, has not gone out and has not ended.
pub proof fn fresh_tasks_are_blank(trigger_time: u32, job: JobInfoView)
    ensures
        ({
            let task = JobTaskView::from_job(trigger_time, job);
            &&& task.job_id == job.id
            &&& task.trigger_time == trigger_time
            &&& task.task_id == 0
            &&& task.instance_addr.len() == 0
            &&& task.trigger_message.len() == 0
            &&& task.status == TaskStatusType::Init
            &&& task.finish_time == 0
        }),
{
}

/// A task that is given up is in error, ends at that time and says why. It is still the same task
/// of the same job; giving it up again is as if only the last reason had been given.
pub proof fn giving_up_keeps_the_task(
    task: JobTaskView,
    first: Seq<char>,
    earlier: u32,
    message: Seq<char>,
    now: u32,
)
    ensures
        ({
            let failed = task.failed(message, now);
            &&& failed.status == TaskStatusType::Error
            &&& failed.trigger_message == message
            &&& failed.finish_time == now
            &&& failed.task_id == task.task_id
            &&& failed.job_id == task.job_id
            &&& failed.trigger_time == task.trigger_time
            &&& failed.instance_addr == task.instance_addr
            &&& task.failed(first, earlier).failed(message, now) == failed
        }),
{
}

/// A task that is handed on with another status is the same in everything else; only the last
/// status counts.
pub proof fn a_status_is_all_that_changes(
    task: JobTaskView,
    first: TaskStatusType,
    status: TaskStatusType,
)
    ensures
        ({
            let next = task.with_status(status);
            &&& next.status == status
            &&& next.task_id == task.task_id
            &&& next.job_id == task.job_id
            &&& next.trigger_time == task.trigger_time
            &&& next.instance_addr == task.instance_addr
            &&& next.trigger_message == task.trigger_message
            &&& next.finish_time == task.finish_time
            &&& task.with_status(first).with_status(status) == next
        }),
{
}

/// A task goes to the addresses that were picked for it, no more and no fewer, in their order: to
/// the one that is fixed or was selected, to every one of them, or to none.
pub proof fn a_task_goes_where_it_was_picked_for(
    select: SelectView,
    addr: Seq<char>,
    addrs: Seq<Seq<char>>,
)
    ensures
        select.targets() == addresses(select),
        SelectView::Fixed(addr).targets().len() == 1,
        SelectView::Fixed(addr).targets()[0] == addr,
        SelectView::Selected(addr).targets().len() == 1,
        SelectView::Selected(addr).targets()[0] == addr,
        SelectView::All(addrs).targets() == addrs,
        SelectView::Empty.targets().len() == 0,
{
}

/// An instance is told the id of the task and its job, and when it was triggered, in milliseconds.
pub proof fn an_instance_is_told_task_job_and_time(
    task_id: u64,
    job: JobInfoView,
    trigger_time: u32,
)
    ensures
        ({
            let param = JobRunParamView::of_task(task_id, job, trigger_time);
            &&& param.task_id == task_id
            &&& param.job == job
            &&& param.log_date_time matches Some(time) && time == trigger_time * 1000
        }),
{
}

/// An instance is asked for on behalf of the job: for its application, by its strategy, under its
/// id, among all the given addresses in their order.
pub proof fn an_instance_is_asked_for_on_behalf_of_the_job(
    job: JobInfoView,
    instance_keys: Seq<Seq<char>>,
)
    ensures
        ({
            let request = SelectRequestView::of_job(job, instance_keys);
            &&& request.app == job.app
            &&& request.instance_keys == instance_keys
            &&& request.router_strategy == job.router_strategy
            &&& request.job_id == job.id
        }),
{
}

/// The header says that the contents are JSON, names the program and its version, and carries the
/// token where there is one; there is nothing else in it.
pub proof fn the_header_names_program_and_token(
    token: Seq<char>,
    app_version: Seq<char>,
    entry: (Seq<char>, Seq<char>),
)
    ensures
        request_header(token, app_version).contains(entry) <==> {
            ||| entry == ("Content-Type"@, "application/json"@)
            ||| entry == ("User-Agent"@, "ratch-job/"@ + app_version)
            ||| token.len() > 0 && entry == ("XXL-JOB-ACCESS-TOKEN"@, token)
        },
        request_header(token, app_version).len() == if token.len() > 0 {
            3nat
        } else {
            2
        },
        request_header(token, app_version)[0].0 == "Content-Type"@,
        request_header(token, app_version)[1].0 == "User-Agent"@,
{
    let header: HeaderView = request_header(token, app_version);
    assert(header[0] == ("Content-Type"@, "application/json"@));
    assert(header[1] == ("User-Agent"@, "ratch-job/"@ + app_version));
    if token.len() > 0 {
        assert(header[2] == ("XXL-JOB-ACCESS-TOKEN"@, token));
    }
}

/// Adding an address to a group keeps every address that is there, where it is, and adds just that
/// one, at the end, unless it is there already.
pub proof fn a_group_grows_by_one_address(addrs: Seq<Seq<char>>, addr: Seq<char>, other: Seq<char>)
    ensures
        with_addr(addrs, addr).contains(other) <==> addrs.contains(other) || other == addr,
        addrs.is_prefix_of(with_addr(addrs, addr)),
        with_addr(addrs, addr).len() == addrs.len() + if addrs.contains(addr) {
            0nat
        } else {
            1
        },
{
    let more = with_addr(addrs, addr);
    assert(addrs =~= more.take(addrs.len() as int));
    if addrs.contains(other) {
        let k = choose|k: int| 0 <= k < addrs.len() && addrs[k] == other;
        assert(more[k] == other);
    }
    if !addrs.contains(addr) {
        assert(more[addrs.len() as int] == addr);
    }
}

/// Every refusal has its own text.
pub proof fn refusals_say_why(error: TaskError)
    ensures
        error == TaskError::CollaboratorMissing ==> error.message_view()
            == "sequence_manager or job_manager is none"@,
        error == TaskError::NoTaskIdRange ==> error.message_view()
            == "sequence_manager get direct range error"@,
{
}

/// The contents of a list are the contents of its elements, one for one and in order.
pub proof fn lists_are_their_elements<T: View>(items: Seq<T>)
    ensures
        views(items).len() == items.len(),
        forall|i: int| 0 <= i < items.len() ==> #[trigger] views(items)[i] == items[i]@,
{
}

/// The contents of applications, instances, jobs and due jobs are the values of their fields.
pub proof fn jobs_are_their_fields(
    app: AppKey,
    instance: AppInstanceKey,
    job: JobInfo,
    item: TriggerItem,
    group: AppInstanceStateGroup,
)
    ensures
        app@.app_name == app.app_name@,
        app@.namespace == app.namespace@,
        instance@.app.app_name == instance.app_name@,
        instance@.app.namespace == instance.namespace@,
        instance@.addr == instance.addr@,
        job@.id == job.id,
        job@.app.app_name == job.app_name@,
        job@.app.namespace == job.namespace@,
        job@.router_strategy == job.router_strategy@,
        item@.trigger_time == item.trigger_time,
        item@.job == item.job_info@,
        item@.fix_addr == item.fix_addr@,
        group@.app == group.app_key@,
        group@.instance_keys == views(group.instance_keys@),
{
}

/// The contents of tasks, of tasks with their instances and of the parameters of a run are the
/// values of their fields.
pub proof fn tasks_are_their_fields(task: JobTaskInfo, wrap: TaskWrap, param: JobRunParam)
    ensures
        task@.task_id == task.task_id,
        task@.job_id == task.job_id,
        task@.trigger_time == task.trigger_time,
        task@.instance_addr == task.instance_addr@,
        task@.trigger_message == task.trigger_message@,
        task@.status == task.status,
        task@.finish_time == task.finish_time,
        wrap@.task == wrap.task@,
        wrap@.job == wrap.job_info@,
        wrap@.select == wrap.select_result@,
        wrap@.app_addrs == views(wrap.app_addrs@),
        param@.task_id == param.task_id,
        param@.job == param.job_info@,
        param@.log_date_time == param.log_date_time,
{
}

/// The contents of a pick are the addresses that it holds.
pub proof fn picks_are_their_addresses(addr: Arc<String>, addrs: Vec<Arc<String>>)
    ensures
        InstanceAddrSelectResult::Fixed(addr)@ == SelectView::Fixed(addr@),
        InstanceAddrSelectResult::Selected(addr)@ == SelectView::Selected(addr@),
        InstanceAddrSelectResult::ALL(addrs)@ == SelectView::All(views(addrs@)),
        InstanceAddrSelectResult::Empty@ == SelectView::Empty,
{
}

/// The contents of what a flow asks of its surroundings are the values that it asks with.
pub proof fn actions_are_their_requests(
    select: SelectRequest,
    name: Arc<String>,
    len: u64,
    task: Arc<JobTaskInfo>,
    tasks: Vec<Arc<JobTaskInfo>>,
    pairs: Vec<(JobTaskInfo, Arc<JobInfo>)>,
    run: RunRequest,
)
    ensures
        select@.app == select.app_key@,
        select@.instance_keys == views(select.instance_keys@),
        select@.router_strategy == select.router_strategy@,
        select@.job_id == select.job_id,
        run@.addr == run.addr@,
        run@.header == views(run.header@),
        run@.param == run.param@,
        Action::SelectInstance(select)@ == ActionView::SelectInstance(select@),
        Action::Sequence(SequenceRequest::GetNextId(name))@ == ActionView::Sequence(
            SequenceRequestView::GetNextId(name@),
        ),
        Action::Sequence(SequenceRequest::GetDirectRange(name, len))@ == ActionView::Sequence(
            SequenceRequestView::GetDirectRange(name@, len),
        ),
        Action::Raft(JobManagerRaftReq::UpdateTask(task))@ == ActionView::Raft(
            RaftReqView::UpdateTask(task@),
        ),
        Action::Raft(JobManagerRaftReq::UpdateTaskList(tasks))@ == ActionView::Raft(
            RaftReqView::UpdateTaskList(views(tasks@)),
        ),
        Action::BuildTaskWrap(pairs)@ == ActionView::BuildTaskWrap(views(pairs@)),
        Action::RunJob(run)@ == ActionView::RunJob(run@),
        Action::Report(task)@ == ActionView::Report(task@),
        Action::Finish@ == ActionView::Finish,
{
}

/// The contents of a reply are the values that came back.
pub proof fn replies_are_their_values(
    select: InstanceAddrSelectResult,
    taken: bool,
    wraps: Vec<TaskWrap>,
    ignored: Vec<Arc<JobTaskInfo>>,
    message: Arc<String>,
)
    ensures
        Reply::Selected(select)@ == ReplyView::Selected(select@),
        Reply::Raft(taken)@ == ReplyView::Raft(taken),
        Reply::Wrapped(wraps, ignored)@ == ReplyView::Wrapped(views(wraps@), views(ignored@)),
        Reply::Run(Ok(()))@ == ReplyView::Run(Ok(())),
        Reply::Run(Err(message))@ == ReplyView::Run(Err(message@)),
        run_result_view(Ok(())) == Ok::<(), Seq<char>>(()),
        run_result_view(Err(message)) == Err::<(), Seq<char>>(message@),
        Reply::Reported@ == ReplyView::Reported,
        forall|result: Option<SequenceResult>| #[trigger]
            Reply::Sequence(result)@ == ReplyView::Sequence(result),
{
}

/// The contents of a request to the manager are the values that it names.
pub proof fn requests_are_their_values(
    app: AppKey,
    addr: Arc<String>,
    keys: Vec<AppInstanceKey>,
    trigger_time: u32,
    job: Arc<JobInfo>,
    items: Vec<TriggerItem>,
)
    ensures
        TaskManagerReq::AddAppInstance(app, addr)@ == TaskManagerReqView::AddAppInstance(
            app@,
            addr@,
        ),
        TaskManagerReq::AddAppInstances(keys)@ == TaskManagerReqView::AddAppInstances(views(keys@)),
        TaskManagerReq::RemoveAppInstance(app, addr)@ == TaskManagerReqView::RemoveAppInstance(
            app@,
            addr@,
        ),
        TaskManagerReq::RemoveAppInstances(keys)@ == TaskManagerReqView::RemoveAppInstances(
            views(keys@),
        ),
        TaskManagerReq::TriggerTask(trigger_time, job)@ == TaskManagerReqView::TriggerTask(
            trigger_time,
            job@,
        ),
        TaskManagerReq::TriggerTaskList(items)@ == TaskManagerReqView::TriggerTaskList(
            views(items@),
        ),
{
}

/// The contents of what the manager returns are those of the flow, or the error itself.
pub proof fn answers_are_their_flows(run: RunTask, list: TriggerTaskList, error: TaskError)
    ensures
        flow_result(Ok(TaskFlow::Nothing)) == Ok::<TaskFlowView, TaskError>(TaskFlowView::Nothing),
        flow_result(Ok(TaskFlow::RunTask(run))) == Ok::<TaskFlowView, TaskError>(
            TaskFlowView::RunTask(run@),
        ),
        flow_result(Ok(TaskFlow::TriggerTaskList(list))) == Ok::<TaskFlowView, TaskError>(
            TaskFlowView::TriggerTaskList(list@),
        ),
        flow_result(Err(error)) == Err::<TaskFlowView, TaskError>(error),
        run_task_result(Ok(Some(run))) matches Ok(Some(flow)) && flow == run@,
        run_task_result(Ok(None)) matches Ok(None),
        run_task_result(Err(error)) matches Err(e) && e == error,
        task_list_result(Ok(Some(list))) matches Ok(Some(flow)) && flow == list@,
        task_list_result(Ok(None)) matches Ok(None),
        task_list_result(Err(error)) matches Err(e) && e == error,
{
}

} // verus!
