//! Laws of what calls into the library accept and give back.

use crate::error::TaskError;
use crate::exchange::{
    Action, JobManagerRaftReq, RaftReqView, Reply, ReplyView, SelectRequest, SeqRange,
    SequenceResult,
};
use crate::group::AppInstanceStateGroup;
use crate::laws::list;
use crate::laws::list::{all_recorded, going_out, staying};
use crate::laws::registry::{
    adds, adds_to, addresses_come_and_go_as_named, applications_stay_known,
    lemma_remove_value_is_filter, listed, managers_list_no_address_twice, removes,
};
use crate::laws::single;
use crate::laws::values::a_group_grows_by_one_address;
use crate::manager::{TaskFlow, TaskManager, TaskManagerReq, TaskManagerReqView};
use crate::model::{
    AppConfig, AppInstanceKey, AppKey, AppKeyView, InstanceAddrSelectResult, JobInfo, JobInfoView,
    JobRunParam, JobTaskInfo, TaskStatusType, TaskWrap, TriggerItem,
};
use crate::run_task::{RunTask, RunTaskView};
use crate::shared::views;
use crate::task_list::{
    fetch_task_ids, init_tasks, notify_update_task, TaskListEnd, TriggerTaskList,
    TriggerTaskListView,
};
use std::sync::Arc;
use vstd::prelude::*;

verus! {

/// Every well-formed manager handles every request and stays well-formed. Afterwards an address is
/// listed for an application just where it was listed before or the request adds it there, and
/// the request does not remove it from there; an application that was known stays known. The
/// header and the collaborators stay as they are.
pub proof fn handling_lists_what_requests_name(
    manager: &mut TaskManager,
    msg: TaskManagerReq,
    flow: Result<TaskFlow, TaskError>,
    app: AppKeyView,
    addr: Seq<char>,
)
    requires
        old(manager).wf(),
        call_ensures(TaskManager::handle, (manager, msg), flow),
    ensures
        call_requires(TaskManager::handle, (manager, msg)),
        final(manager).wf(),
        listed(final(manager)@.registry, app, addr) <==> (listed(old(manager)@.registry, app, addr)
            || adds(msg@, app, addr)) && !removes(msg@, app, addr),
        final(manager)@.registry.dom().contains(app) <==> old(manager)@.registry.dom().contains(app)
            || adds_to(msg@, app),
        msg is TriggerTask || msg is TriggerTaskList ==> final(manager)@ == old(manager)@,
        !(msg is TriggerTask || msg is TriggerTaskList) ==> flow is Ok && flow->Ok_0 is Nothing,
        final(manager)@.header == old(manager)@.header,
        final(manager)@.sequence_manager == old(manager)@.sequence_manager,
        final(manager)@.job_manager == old(manager)@.job_manager,
        final(manager)@.raft_request_route == old(manager)@.raft_request_route,
{
    managers_list_no_address_twice(*old(manager));
    addresses_come_and_go_as_named(old(manager)@, msg@, app, addr);
    applications_stay_known(old(manager)@, msg@, app);
}

/// Handling a request to run a task, or calling the method for it, starts the flow of that task
/// just where all collaborators are there and the application is known; without a collaborator it
/// is refused.
pub proof fn handling_a_task_starts_its_flow(
    manager: &mut TaskManager,
    trigger_time: u32,
    job: Arc<JobInfo>,
    handled: Result<TaskFlow, TaskError>,
    triggered: Result<Option<RunTask>, TaskError>,
)
    requires
        old(manager).wf(),
        call_ensures(
            TaskManager::handle,
            (manager, TaskManagerReq::TriggerTask(trigger_time, job)),
            handled,
        ),
        call_ensures(TaskManager::trigger_task, (&*old(manager), trigger_time, job), triggered),
    ensures
        call_requires(TaskManager::trigger_task, (&*old(manager), trigger_time, job)),
        ({
            let m = old(manager)@;
            let there = m.sequence_manager && m.job_manager && m.raft_request_route;
            let known = m.registry.dom().contains(job@.app);
            let start = RunTaskView::Select {
                header: m.header,
                trigger_time,
                job: job@,
                instance_keys: m.registry[job@.app],
            };
            &&& handled is Err <==> !there
            &&& triggered is Err <==> !there
            &&& handled matches Err(error) ==> error == TaskError::CollaboratorMissing
            &&& triggered matches Err(error) ==> error == TaskError::CollaboratorMissing
            &&& there && !known ==> handled is Ok && handled->Ok_0 is Nothing
            &&& there && !known ==> triggered is Ok && triggered->Ok_0 is None
            &&& there && known ==> (handled matches Ok(TaskFlow::RunTask(flow)) && flow@
                == start)
            &&& there && known ==> (triggered matches Ok(Some(flow)) && flow@ == start)
        }),
{
}

/// Handling a request to trigger due jobs, or calling the method for it, starts the flow of all of
/// them just where there are any and the collaborators are there; without a collaborator it is
/// refused, and without jobs there is nothing to start.
pub proof fn handling_due_jobs_starts_their_flow(
    manager: &mut TaskManager,
    items: Vec<TriggerItem>,
    handled: Result<TaskFlow, TaskError>,
    triggered: Result<Option<TriggerTaskList>, TaskError>,
)
    requires
        old(manager).wf(),
        call_ensures(
            TaskManager::handle,
            (manager, TaskManagerReq::TriggerTaskList(items)),
            handled,
        ),
        call_ensures(TaskManager::trigger_task_list, (&*old(manager), items), triggered),
    ensures
        call_requires(TaskManager::trigger_task_list, (&*old(manager), items)),
        ({
            let m = old(manager)@;
            let there = m.sequence_manager && m.raft_request_route;
            let start = TriggerTaskListView::FetchIds { header: m.header, items: views(items@) };
            &&& handled is Err <==> items@.len() > 0 && !there
            &&& triggered is Err <==> items@.len() > 0 && !there
            &&& handled matches Err(error) ==> error == TaskError::CollaboratorMissing
            &&& triggered matches Err(error) ==> error == TaskError::CollaboratorMissing
            &&& items@.len() == 0 ==> handled is Ok && handled->Ok_0 is Nothing
            &&& items@.len() == 0 ==> triggered is Ok && triggered->Ok_0 is None
            &&& items@.len() > 0 && there ==> (handled matches Ok(TaskFlow::TriggerTaskList(flow))
                && flow@ == start)
            &&& items@.len() > 0 && there ==> (triggered matches Ok(Some(flow)) && flow@ == start)
        }),
{
}

/// Adding and removing an instance by a method does what the request of the same name does.
pub proof fn methods_do_what_requests_do(
    adding: &mut TaskManager,
    removing: &mut TaskManager,
    key: AppKey,
    addr: Arc<String>,
)
    requires
        old(adding).wf(),
        old(removing).wf(),
        call_ensures(TaskManager::add_app_instance, (adding, key, addr), ()),
        call_ensures(TaskManager::remove_app_instance, (removing, key, addr), ()),
    ensures
        call_requires(TaskManager::add_app_instance, (adding, key, addr)),
        call_requires(TaskManager::remove_app_instance, (removing, key, addr)),
        final(adding).wf(),
        final(removing).wf(),
        final(adding)@ == old(adding)@.after(TaskManagerReqView::AddAppInstance(key@, addr@)),
        final(removing)@ == old(removing)@.after(
            TaskManagerReqView::RemoveAppInstance(key@, addr@),
        ),
{
}

/// A new manager knows no application and has no collaborators; its header says that the contents
/// are JSON, names the program with its version, and carries the token where there is one.
/// Noting the collaborators changes nothing else.
pub proof fn a_new_manager_knows_nothing(
    config: Arc<AppConfig>,
    app_version: &str,
    manager: TaskManager,
    header: &Vec<(String, String)>,
    injected: &mut TaskManager,
    collaborators: (bool, bool, bool),
)
    requires
        call_ensures(TaskManager::new, (config, app_version), manager),
        call_ensures(TaskManager::xxl_request_header, (&manager,), header),
        *old(injected) == manager,
        call_ensures(
            TaskManager::inject,
            (injected, collaborators.0, collaborators.1, collaborators.2),
            (),
        ),
    ensures
        call_requires(TaskManager::new, (config, app_version)),
        call_requires(
            TaskManager::inject,
            (injected, collaborators.0, collaborators.1, collaborators.2),
        ),
        manager.wf(),
        manager@.registry == Map::<AppKeyView, Seq<Seq<char>>>::empty(),
        !manager@.sequence_manager && !manager@.job_manager && !manager@.raft_request_route,
        views(header@) == manager@.header,
        header@.len() == if config.xxl_default_access_token@.len() > 0 {
            3nat
        } else {
            2
        },
        header@[0].0@ == "Content-Type"@ && header@[0].1@ == "application/json"@,
        header@[1].0@ == "User-Agent"@ && header@[1].1@ == "ratch-job/"@ + app_version@,
        header@.len() > 2 ==> header@[2].0@ == "XXL-JOB-ACCESS-TOKEN"@ && header@[2].1@
            == config.xxl_default_access_token@,
        final(injected).wf(),
        final(injected)@.registry == manager@.registry,
        final(injected)@.header == manager@.header,
        final(injected)@.sequence_manager == collaborators.0,
        final(injected)@.job_manager == collaborators.1,
        final(injected)@.raft_request_route == collaborators.2,
{
    assert(views(header@).len() == header@.len());
    assert(views(header@)[0] == header@[0]@);
    assert(views(header@)[1] == header@[1]@);
    if config.xxl_default_access_token@.len() > 0 {
        assert(views(header@)[2] == header@[2]@);
    }
}

/// An instance can be asked for just where the application is known, whatever it lists: for that
/// application, among all that it lists in their order, by the job's strategy and under its id.
/// Asking for each task of a list is asking for each on its own.
pub proof fn instances_are_asked_for_by_application(
    manager: TaskManager,
    job: JobInfo,
    request: Option<SelectRequest>,
    tasks: Vec<(JobTaskInfo, Arc<JobInfo>)>,
    requests: Vec<Option<SelectRequest>>,
    i: int,
)
    requires
        manager.wf(),
        call_ensures(TaskManager::select_request, (&manager, &job), request),
        call_ensures(TaskManager::select_requests, (&manager, &tasks), requests),
        0 <= i < tasks@.len(),
    ensures
        call_requires(TaskManager::select_request, (&manager, &job)),
        call_requires(TaskManager::select_requests, (&manager, &tasks)),
        request is Some <==> manager@.registry.dom().contains(job@.app),
        request matches Some(r) ==> {
            &&& r.app_key.app_name@ == job.app_name@
            &&& r.app_key.namespace@ == job.namespace@
            &&& views(r.instance_keys@) == manager@.registry[job@.app]
            &&& r.router_strategy@ == job.router_strategy@
            &&& r.job_id == job.id
        },
        requests@.len() == tasks@.len(),
        requests@[i] is Some <==> manager@.registry.dom().contains(tasks@[i].1@.app),
        requests@[i] matches Some(r) ==> {
            &&& r.app_key@ == tasks@[i].1@.app
            &&& views(r.instance_keys@) == manager@.registry[tasks@[i].1@.app]
            &&& r.router_strategy@ == tasks@[i].1@.router_strategy
            &&& r.job_id == tasks@[i].1@.id
        },
{
    assert(requests@[i] is Some ==> requests@[i]->0@.app == tasks@[i].1@.app);
}

/// Joining tasks with their instances sends out those whose application is known and for which
/// something was picked, and gives up the others; a flow that waits for this goes on with these
/// two lists, and no other flow is changed by it.
pub proof fn joining_splits_the_tasks(
    manager: TaskManager,
    tasks: Vec<(JobTaskInfo, Arc<JobInfo>)>,
    selects: Vec<InstanceAddrSelectResult>,
    now: u32,
    lists: (Vec<TaskWrap>, Vec<Arc<JobTaskInfo>>),
    flow: TriggerTaskList,
    next: TriggerTaskList,
)
    requires
        manager.wf(),
        selects@.len() == tasks@.len(),
        flow@ is Wrap ==> flow@->Wrap_tasks == views(tasks@),
        call_ensures(TaskManager::build_task_wrap, (&manager, tasks, selects, now), lists),
        call_ensures(TaskManager::join_task_list, (&manager, flow, selects, now), next),
    ensures
        call_requires(TaskManager::build_task_wrap, (&manager, tasks, selects, now)),
        call_requires(TaskManager::join_task_list, (&manager, flow, selects, now)),
        views(lists.0@) == going_out(manager@.registry, views(tasks@), views(selects@)),
        views(lists.1@) == staying(manager@.registry, views(tasks@), views(selects@), now),
        !(flow@ is Wrap) ==> next@ == flow@,
        flow@ is Wrap ==> next@ == flow@.resume(
            ReplyView::Wrapped(views(lists.0@), views(lists.1@)),
            now,
        ),
{
    list::a_known_application_runs_what_was_picked(
        Seq::empty(),
        manager@.registry,
        views(tasks@),
        views(selects@),
        now,
    );
}

/// The tasks of due jobs are made one for each, in order, under consecutive ids from the start of
/// the range. An answer of the keeper of sequences gives a range just where it is one, and a list
/// of tasks gives a change of the record just where it is not empty: of all of them, in order.
pub proof fn due_jobs_get_their_tasks(
    items: Vec<TriggerItem>,
    range: SeqRange,
    tasks: Vec<(JobTaskInfo, Arc<JobInfo>)>,
    given: SequenceResult,
    fetched: Result<SeqRange, TaskError>,
    changed: Vec<Arc<JobTaskInfo>>,
    request: Option<JobManagerRaftReq>,
)
    requires
        range.start + items@.len() <= u64::MAX,
        call_ensures(init_tasks, (&items, range), tasks),
        call_ensures(fetch_task_ids, (given,), fetched),
        call_ensures(notify_update_task, (changed,), request),
    ensures
        call_requires(init_tasks, (&items, range)),
        call_requires(fetch_task_ids, (given,)),
        call_requires(notify_update_task, (changed,)),
        views(tasks@) == all_recorded(views(items@), range.start),
        given matches SequenceResult::Range(r) ==> fetched == Ok::<SeqRange, TaskError>(r),
        given is NextId ==> fetched == Err::<SeqRange, TaskError>(TaskError::NoTaskIdRange),
        changed@.len() == 0 <==> request is None,
        changed@.len() > 0 ==> (request matches Some(r) && r@ == RaftReqView::UpdateTaskList(
            views(changed@),
        )),
{
    list::task_ids_are_consecutive(views(items@), range.start);
    let expected = all_recorded(views(items@), range.start);
    assert forall|i: int| 0 <= i < items@.len() implies #[trigger] views(tasks@)[i]
        == expected[i] by {
        assert(views(tasks@)[i].0.trigger_message =~= Seq::<char>::empty());
    }
    assert(views(tasks@) =~= expected);
}

/// Whether each flow of `flows` came of calling `resume` on the one before it with the reply of
/// that number.
pub open spec fn resumed_one_by_one(flows: Seq<RunTask>, replies: Seq<(Reply, u32)>) -> bool {
    &&& flows.len() == replies.len() + 1
    &&& forall|k: int|
        0 <= k < replies.len() ==> call_ensures(
            RunTask::resume,
            (#[trigger] flows[k], replies[k].0, replies[k].1),
            flows[k + 1],
        )
}

/// The replies by their contents.
pub open spec fn contents_of(replies: Seq<(Reply, u32)>) -> Seq<(ReplyView, u32)> {
    Seq::new(replies.len(), |k: int| (replies[k].0@, replies[k].1))
}

/// Calling `resume` with one reply after the other leads where the laws of the flow of one task
/// say; there it names the action that they say, and hands the task out just when it is over.
/// Every reply is accepted at every time.
pub proof fn resuming_follows_the_replies(
    flows: Seq<RunTask>,
    replies: Seq<(Reply, u32)>,
    action: Action,
    result: Option<&JobTaskInfo>,
    more: (Reply, u32),
)
    requires
        resumed_one_by_one(flows, replies),
        call_ensures(RunTask::action, (&flows.last(),), action),
        call_ensures(RunTask::result, (&flows.last(),), result),
    ensures
        call_requires(RunTask::action, (&flows.last(),)),
        call_requires(RunTask::result, (&flows.last(),)),
        call_requires(RunTask::resume, (flows.last(), more.0, more.1)),
        flows.last()@ == single::drive(flows[0]@, contents_of(replies)),
        action@ == single::drive(flows[0]@, contents_of(replies)).action(),
        result is Some <==> action@ is Finish,
        result matches Some(task) ==> flows.last()@ == (RunTaskView::Finished { task: task@ }),
{
    lemma_resuming(flows, replies);
}

proof fn lemma_resuming(flows: Seq<RunTask>, replies: Seq<(Reply, u32)>)
    requires
        resumed_one_by_one(flows, replies),
    ensures
        flows.last()@ == single::drive(flows[0]@, contents_of(replies)),
    decreases replies.len(),
{
    if replies.len() > 0 {
        let before = flows.drop_last();
        let fewer = replies.drop_last();
        assert forall|k: int| 0 <= k < fewer.len() implies call_ensures(
            RunTask::resume,
            (#[trigger] before[k], fewer[k].0, fewer[k].1),
            before[k + 1],
        ) by {
            assert(before[k] == flows[k]);
        }
        lemma_resuming(before, fewer);
        assert(contents_of(replies).drop_last() =~= contents_of(fewer));
        assert(before.last() == flows[replies.len() - 1]);
        assert(flows[replies.len() - 1]@.resume(replies.last().0@, replies.last().1)
            == flows.last()@);
    }
}

/// Whether each flow of `flows` came of calling `resume` on the one before it with the reply of
/// that number.
pub open spec fn list_resumed_one_by_one(
    flows: Seq<TriggerTaskList>,
    replies: Seq<(Reply, u32)>,
) -> bool {
    &&& flows.len() == replies.len() + 1
    &&& forall|k: int|
        0 <= k < replies.len() ==> call_ensures(
            TriggerTaskList::resume,
            (#[trigger] flows[k], replies[k].0, replies[k].1),
            flows[k + 1],
        )
}

/// Calling `resume` with one reply after the other leads where the laws of the flow of a list of
/// tasks say; there it names the action that they say, and tells how it ended just when it is over.
/// Every reply but ids that cannot be numbered is accepted at every time.
pub proof fn resuming_a_list_follows_the_replies(
    flows: Seq<TriggerTaskList>,
    replies: Seq<(Reply, u32)>,
    action: Action,
    result: Option<TaskListEnd>,
    more: (Reply, u32),
)
    requires
        list_resumed_one_by_one(flows, replies),
        call_ensures(TriggerTaskList::action, (&flows.last(),), action),
        call_ensures(TriggerTaskList::result, (&flows.last(),), result),
    ensures
        call_requires(TriggerTaskList::action, (&flows.last(),)),
        call_requires(TriggerTaskList::result, (&flows.last(),)),
        !(flows.last()@ is FetchIds) || !(more.0 matches Reply::Sequence(
            Some(SequenceResult::Range(_)),
        )) ==> call_requires(TriggerTaskList::resume, (flows.last(), more.0, more.1)),
        flows.last()@ matches TriggerTaskListView::FetchIds { items, .. } ==> (more.0 matches
            Reply::Sequence(Some(SequenceResult::Range(range))) ==> (range.start + items.len()
            <= u64::MAX ==> call_requires(
            TriggerTaskList::resume,
            (flows.last(), more.0, more.1),
        ))),
        flows.last()@ == list::drive(flows[0]@, contents_of(replies)),
        action@ == list::drive(flows[0]@, contents_of(replies)).action(),
        result is Some <==> action@ is Finish,
        result matches Some(end) ==> flows.last()@ == (TriggerTaskListView::Finished { end }),
{
    lemma_resuming_a_list(flows, replies);
}

proof fn lemma_resuming_a_list(flows: Seq<TriggerTaskList>, replies: Seq<(Reply, u32)>)
    requires
        list_resumed_one_by_one(flows, replies),
    ensures
        flows.last()@ == list::drive(flows[0]@, contents_of(replies)),
    decreases replies.len(),
{
    if replies.len() > 0 {
        let before = flows.drop_last();
        let fewer = replies.drop_last();
        assert forall|k: int| 0 <= k < fewer.len() implies call_ensures(
            TriggerTaskList::resume,
            (#[trigger] before[k], fewer[k].0, fewer[k].1),
            before[k + 1],
        ) by {
            assert(before[k] == flows[k]);
        }
        lemma_resuming_a_list(before, fewer);
        assert(contents_of(replies).drop_last() =~= contents_of(fewer));
        assert(before.last() == flows[replies.len() - 1]);
        assert(flows[replies.len() - 1]@.resume(replies.last().0@, replies.last().1)
            == flows.last()@);
    }
}

/// An instance's answer is handed on as taken, whatever it says besides, and a failure with its
/// text; a refusal is put into words.
pub proof fn answers_are_handed_on<T>(
    answer: Result<T, String>,
    reply: Reply,
    error: TaskError,
    message: String,
)
    requires
        call_ensures(Reply::of_run_job::<T>, (answer,), reply),
        call_ensures(TaskError::message, (&error,), message),
    ensures
        call_requires(Reply::of_run_job::<T>, (answer,)),
        call_requires(TaskError::message, (&error,)),
        answer is Ok ==> reply matches Reply::Run(Ok(_)),
        answer matches Err(text) ==> (reply matches Reply::Run(Err(m)) && m@ == text@),
        error == TaskError::CollaboratorMissing ==> message@
            == "sequence_manager or job_manager is none"@,
        error == TaskError::NoTaskIdRange ==> message@
            == "sequence_manager get direct range error"@,
{
}

/// Keys, fresh tasks and run parameters hold what they are made of.
pub proof fn what_is_made_holds_its_parts(
    names: (Arc<String>, Arc<String>),
    key: AppKey,
    instance: AppInstanceKey,
    instance_app: AppKey,
    job: Arc<JobInfo>,
    job_app: AppKey,
    trigger_time: u32,
    task: JobTaskInfo,
    task_id: u64,
    param: JobRunParam,
)
    requires
        call_ensures(AppKey::new, names, key),
        call_ensures(AppInstanceKey::build_app_key, (&instance,), instance_app),
        call_ensures(JobInfo::build_app_key, (&*job,), job_app),
        call_ensures(JobTaskInfo::from_job, (trigger_time, &*job), task),
        call_ensures(JobRunParam::from_job_info, (task_id, &job), param),
    ensures
        key.app_name@ == names.0@ && key.namespace@ == names.1@,
        instance_app.app_name@ == instance.app_name@,
        instance_app.namespace@ == instance.namespace@,
        job_app.app_name@ == job.app_name@ && job_app.namespace@ == job.namespace@,
        task.task_id == 0 && task.job_id == job.id && task.trigger_time == trigger_time,
        task.instance_addr@.len() == 0 && task.trigger_message@.len() == 0,
        task.status == TaskStatusType::Init && task.finish_time == 0,
        param.task_id == task_id && param.job_info@ == job@ && param.log_date_time is None,
{
    let made: JobInfoView = job@;
    assert(key@.app_name == names.0@);
    assert(instance_app@ == instance@.app);
    assert(job_app@ == made.app);
    assert(task@.job_id == made.id);
    assert(param@.job == made);
}

/// A group starts empty, lists an address just where it has been added, each once, and stops
/// listing it just where it is removed; it stays of its application.
pub proof fn groups_list_what_is_added(
    key: AppKey,
    empty: AppInstanceStateGroup,
    adding: &mut AppInstanceStateGroup,
    removing: &mut AppInstanceStateGroup,
    addr: Arc<String>,
    other: Seq<char>,
)
    requires
        call_ensures(AppInstanceStateGroup::new, (key,), empty),
        old(adding).wf(),
        old(removing).wf(),
        call_ensures(AppInstanceStateGroup::add_instance, (adding, addr), ()),
        call_ensures(AppInstanceStateGroup::remove_instance, (removing, addr), ()),
    ensures
        call_requires(AppInstanceStateGroup::add_instance, (adding, addr)),
        call_requires(AppInstanceStateGroup::remove_instance, (removing, addr)),
        empty.wf() && empty@.app == key@ && empty@.instance_keys.len() == 0,
        final(adding).wf() && final(adding)@.app == old(adding)@.app,
        old(adding)@.instance_keys.is_prefix_of(final(adding)@.instance_keys),
        final(adding)@.instance_keys.contains(other) <==> old(adding)@.instance_keys.contains(other)
            || other == addr@,
        final(removing).wf() && final(removing)@.app == old(removing)@.app,
        ({
            let gone = addr@;
            final(removing)@.instance_keys == old(removing)@.instance_keys.filter(
                |a: Seq<char>| a != gone,
            )
        }),
{
    a_group_grows_by_one_address(old(adding)@.instance_keys, addr@, other);
    lemma_remove_value_is_filter(old(removing)@.instance_keys, addr@);
}

} // verus!
