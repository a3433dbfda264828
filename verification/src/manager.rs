//! The task manager: which instances there are, and which flows a request starts.

use crate::error::TaskError;
use crate::exchange::{Action, HeaderView, Reply, ReplyView, SelectRequest, SelectRequestView};
use crate::group::{with_addr, AppInstanceStateGroup, GroupView};
use crate::model::{
    AppConfig, AppInstanceKey, AppInstanceKeyView, AppKey, AppKeyView, InstanceAddrSelectResult,
    JobInfo, JobInfoView, JobTaskInfo, JobTaskView, SelectView, TaskWrap, TaskWrapView,
    TriggerItem, TriggerItemView,
};
use crate::run_task::{RunTask, RunTaskView};
use crate::shared::{lemma_views_push, share, share_all, views};
use crate::task_list::{TriggerTaskList, TriggerTaskListView};
use std::sync::Arc;
use vstd::prelude::*;

verus! {

/// Why a task is given up that no instance can run.
pub const ERR_MSG_NOT_FOUND_APP_INSTANCE_ADDR: &'static str = "not found app instance addr";

/// The addresses of the instances of each application.
pub type Registry = Map<AppKeyView, Seq<Seq<char>>>;

/// The registry with the instance at `addr` added to application `app`.
pub open spec fn with_instance(registry: Registry, app: AppKeyView, addr: Seq<char>) -> Registry {
    if registry.dom().contains(app) {
        registry.insert(app, with_addr(registry[app], addr))
    } else {
        registry.insert(app, seq![addr])
    }
}

/// The registry with the instance at `addr` removed from application `app`.
///
/// The application stays known, even when it has lost its last instance.
pub open spec fn without_instance(
    registry: Registry,
    app: AppKeyView,
    addr: Seq<char>,
) -> Registry {
    if registry.dom().contains(app) {
        registry.insert(app, registry[app].remove_value(addr))
    } else {
        registry
    }
}

/// The registry with each of `instances` added, one after the other.
pub open spec fn with_instances(registry: Registry, instances: Seq<AppInstanceKeyView>) -> Registry
    decreases instances.len(),
{
    if instances.len() == 0 {
        registry
    } else {
        with_instance(
            with_instances(registry, instances.drop_last()),
            instances.last().app,
            instances.last().addr,
        )
    }
}

/// The registry with each of `instances` removed, one after the other.
pub open spec fn without_instances(
    registry: Registry,
    instances: Seq<AppInstanceKeyView>,
) -> Registry
    decreases instances.len(),
{
    if instances.len() == 0 {
        registry
    } else {
        without_instance(
            without_instances(registry, instances.drop_last()),
            instances.last().app,
            instances.last().addr,
        )
    }
}

/// The names and values that go with every request to an instance.
pub open spec fn request_header(token: Seq<char>, app_version: Seq<char>) -> HeaderView {
    let always = seq![
        ("Content-Type"@, "application/json"@),
        ("User-Agent"@, "ratch-job/"@ + app_version),
    ];
    if token.len() == 0 {
        always
    } else {
        always.push(("XXL-JOB-ACCESS-TOKEN"@, token))
    }
}

/// Whether a task of `job` can go out, when `select` came of picking an instance for it.
pub open spec fn runnable(registry: Registry, job: JobInfoView, select: SelectView) -> bool {
    registry.dom().contains(job.app) && !(select is Empty)
}

/// The tasks that can go out, in order, each with its instances.
pub open spec fn wrapped_tasks(
    registry: Registry,
    tasks: Seq<(JobTaskView, JobInfoView)>,
    selects: Seq<SelectView>,
) -> Seq<TaskWrapView>
    decreases tasks.len(),
{
    if tasks.len() == 0 {
        Seq::empty()
    } else {
        let before = wrapped_tasks(registry, tasks.drop_last(), selects.drop_last());
        let (task, job) = tasks.last();
        if runnable(registry, job, selects.last()) {
            before.push(
                TaskWrapView { task, job, select: selects.last(), app_addrs: registry[job.app] },
            )
        } else {
            before
        }
    }
}

/// The tasks that cannot go out, in order, each given up at second `now`.
pub open spec fn ignored_tasks(
    registry: Registry,
    tasks: Seq<(JobTaskView, JobInfoView)>,
    selects: Seq<SelectView>,
    now: u32,
) -> Seq<JobTaskView>
    decreases tasks.len(),
{
    if tasks.len() == 0 {
        Seq::empty()
    } else {
        let before = ignored_tasks(registry, tasks.drop_last(), selects.drop_last(), now);
        let (task, job) = tasks.last();
        if runnable(registry, job, selects.last()) {
            before
        } else {
            before.push(task.failed(ERR_MSG_NOT_FOUND_APP_INSTANCE_ADDR@, now))
        }
    }
}

/// Where a flow stands once its tasks have been joined with their instances at second `now`.
///
/// Only a flow that waits for this is changed by it.
pub open spec fn joined(
    flow: TriggerTaskListView,
    registry: Registry,
    selects: Seq<SelectView>,
    now: u32,
) -> TriggerTaskListView {
    match flow {
        TriggerTaskListView::Wrap { tasks, .. } => flow.resume(
            ReplyView::Wrapped(
                wrapped_tasks(registry, tasks, selects),
                ignored_tasks(registry, tasks, selects, now),
            ),
            now,
        ),
        _ => flow,
    }
}

/// The registry that a list of groups stands for.
spec fn registry_of(groups: Seq<GroupView>) -> Registry {
    Map::new(
        |app: AppKeyView| exists|i: int| 0 <= i < groups.len() && (#[trigger] groups[i]).app == app,
        |app: AppKeyView|
            groups[choose|i: int|
                0 <= i < groups.len() && (#[trigger] groups[i]).app == app].instance_keys,
    )
}

/// No two groups are of the same application.
spec fn apps_distinct(groups: Seq<GroupView>) -> bool {
    forall|i: int, j: int|
        0 <= i < j < groups.len() ==> (#[trigger] groups[i]).app != (#[trigger] groups[j]).app
}

/// The group at `i` is the one that the registry holds for its application.
proof fn lemma_registry_at(groups: Seq<GroupView>, i: int)
    requires
        apps_distinct(groups),
        0 <= i < groups.len(),
    ensures
        registry_of(groups).dom().contains(groups[i].app),
        registry_of(groups)[groups[i].app] == groups[i].instance_keys,
{
    let app = groups[i].app;
    let k = choose|k: int| 0 <= k < groups.len() && (#[trigger] groups[k]).app == app;
    assert(groups[i].app == app);
    assert(k == i);
}

/// Changing the addresses of one group changes one entry of the registry.
proof fn lemma_registry_update(groups: Seq<GroupView>, i: int, group: GroupView)
    requires
        apps_distinct(groups),
        0 <= i < groups.len(),
        group.app == groups[i].app,
    ensures
        apps_distinct(groups.update(i, group)),
        registry_of(groups.update(i, group)) == registry_of(groups).insert(
            group.app,
            group.instance_keys,
        ),
{
    let after = groups.update(i, group);
    assert(apps_distinct(after));
    assert forall|app: AppKeyView| #[trigger]
        registry_of(after).dom().contains(app) <==> registry_of(groups).insert(
            group.app,
            group.instance_keys,
        ).dom().contains(app) by {
        if registry_of(after).dom().contains(app) {
            let k = choose|k: int| 0 <= k < after.len() && (#[trigger] after[k]).app == app;
            assert(groups[k].app == app);
        }
        if registry_of(groups).dom().contains(app) {
            let k = choose|k: int| 0 <= k < groups.len() && (#[trigger] groups[k]).app == app;
            assert(after[k].app == app);
        }
        assert(after[i].app == group.app);
    }
    assert forall|app: AppKeyView| #[trigger] registry_of(after).dom().contains(app) implies
        registry_of(after)[app] == registry_of(groups).insert(
        group.app,
        group.instance_keys,
    )[app] by {
        let k = choose|k: int| 0 <= k < after.len() && (#[trigger] after[k]).app == app;
        lemma_registry_at(after, k);
        lemma_registry_at(groups, k);
        lemma_registry_at(after, i);
    }
    assert(registry_of(after) =~= registry_of(groups).insert(group.app, group.instance_keys));
}

/// Adding a group of a new application adds one entry to the registry.
proof fn lemma_registry_push(groups: Seq<GroupView>, group: GroupView)
    requires
        apps_distinct(groups),
        !registry_of(groups).dom().contains(group.app),
    ensures
        apps_distinct(groups.push(group)),
        registry_of(groups.push(group)) == registry_of(groups).insert(
            group.app,
            group.instance_keys,
        ),
{
    let after = groups.push(group);
    assert(forall|i: int| 0 <= i < groups.len() ==> (#[trigger] groups[i]).app != group.app);
    assert(apps_distinct(after));
    assert(after[groups.len() as int] == group);
    assert forall|app: AppKeyView| #[trigger]
        registry_of(after).dom().contains(app) <==> registry_of(groups).insert(
            group.app,
            group.instance_keys,
        ).dom().contains(app) by {
        if registry_of(after).dom().contains(app) && app != group.app {
            let k = choose|k: int| 0 <= k < after.len() && (#[trigger] after[k]).app == app;
            assert(groups[k].app == app);
        }
        if registry_of(groups).dom().contains(app) {
            let k = choose|k: int| 0 <= k < groups.len() && (#[trigger] groups[k]).app == app;
            assert(after[k].app == app);
        }
    }
    assert forall|app: AppKeyView| #[trigger] registry_of(after).dom().contains(app) implies
        registry_of(after)[app] == registry_of(groups).insert(
        group.app,
        group.instance_keys,
    )[app] by {
        let k = choose|k: int| 0 <= k < after.len() && (#[trigger] after[k]).app == app;
        lemma_registry_at(after, k);
        if k < groups.len() {
            lemma_registry_at(groups, k);
        }
    }
    assert(registry_of(after) =~= registry_of(groups).insert(group.app, group.instance_keys));
}

/// Keeps track of the instances of each application and decides what a request starts.
pub struct TaskManager {
    app_instance_group: Vec<AppInstanceStateGroup>,
    xxl_request_header: Arc<Vec<(String, String)>>,
    sequence_manager: bool,
    job_manager: bool,
    raft_request_route: bool,
}

/// The contents of a [`TaskManager`].
#[verifier::ext_equal]
pub struct TaskManagerView {
    pub registry: Registry,
    /// What goes with every request to an instance.
    pub header: HeaderView,
    /// Whether there is a keeper of sequences.
    pub sequence_manager: bool,
    /// Whether there is a job manager.
    pub job_manager: bool,
    /// Whether there is a way to the replicated record.
    pub raft_request_route: bool,
}

impl View for TaskManager {
    type V = TaskManagerView;

    closed spec fn view(&self) -> TaskManagerView {
        TaskManagerView {
            registry: registry_of(views(self.app_instance_group@)),
            header: views(self.xxl_request_header@),
            sequence_manager: self.sequence_manager,
            job_manager: self.job_manager,
            raft_request_route: self.raft_request_route,
        }
    }
}

/// A request to the task manager.
pub enum TaskManagerReq {
    AddAppInstance(AppKey, Arc<String>),
    AddAppInstances(Vec<AppInstanceKey>),
    RemoveAppInstance(AppKey, Arc<String>),
    RemoveAppInstances(Vec<AppInstanceKey>),
    TriggerTask(u32, Arc<JobInfo>),
    TriggerTaskList(Vec<TriggerItem>),
}

/// The contents of a [`TaskManagerReq`].
#[verifier::ext_equal]
pub enum TaskManagerReqView {
    AddAppInstance(AppKeyView, Seq<char>),
    AddAppInstances(Seq<AppInstanceKeyView>),
    RemoveAppInstance(AppKeyView, Seq<char>),
    RemoveAppInstances(Seq<AppInstanceKeyView>),
    TriggerTask(u32, JobInfoView),
    TriggerTaskList(Seq<TriggerItemView>),
}

impl View for TaskManagerReq {
    type V = TaskManagerReqView;

    open spec fn view(&self) -> TaskManagerReqView {
        match self {
            TaskManagerReq::AddAppInstance(app_key, addr) => TaskManagerReqView::AddAppInstance(
                app_key@,
                addr@,
            ),
            TaskManagerReq::AddAppInstances(keys) => TaskManagerReqView::AddAppInstances(
                views(keys@),
            ),
            TaskManagerReq::RemoveAppInstance(app_key, addr) =>
                TaskManagerReqView::RemoveAppInstance(app_key@, addr@),
            TaskManagerReq::RemoveAppInstances(keys) => TaskManagerReqView::RemoveAppInstances(
                views(keys@),
            ),
            TaskManagerReq::TriggerTask(trigger_time, job) => TaskManagerReqView::TriggerTask(
                *trigger_time,
                job@,
            ),
            TaskManagerReq::TriggerTaskList(items) => TaskManagerReqView::TriggerTaskList(
                views(items@),
            ),
        }
    }
}

/// The flow that a request starts.
pub enum TaskFlow {
    Nothing,
    RunTask(RunTask),
    TriggerTaskList(TriggerTaskList),
}

/// The contents of a [`TaskFlow`].
#[verifier::ext_equal]
pub enum TaskFlowView {
    Nothing,
    RunTask(RunTaskView),
    TriggerTaskList(TriggerTaskListView),
}

impl View for TaskFlow {
    type V = TaskFlowView;

    open spec fn view(&self) -> TaskFlowView {
        match self {
            TaskFlow::Nothing => TaskFlowView::Nothing,
            TaskFlow::RunTask(flow) => TaskFlowView::RunTask(flow@),
            TaskFlow::TriggerTaskList(flow) => TaskFlowView::TriggerTaskList(flow@),
        }
    }
}

/// The contents of what [`TaskManager::trigger_task`] returns.
pub open spec fn run_task_result(flow: Result<Option<RunTask>, TaskError>) -> Result<
    Option<RunTaskView>,
    TaskError,
> {
    match flow {
        Ok(Some(flow)) => Ok(Some(flow@)),
        Ok(None) => Ok(None),
        Err(error) => Err(error),
    }
}

/// The contents of what [`TaskManager::trigger_task_list`] returns.
pub open spec fn task_list_result(flow: Result<Option<TriggerTaskList>, TaskError>) -> Result<
    Option<TriggerTaskListView>,
    TaskError,
> {
    match flow {
        Ok(Some(flow)) => Ok(Some(flow@)),
        Ok(None) => Ok(None),
        Err(error) => Err(error),
    }
}

/// The contents of what [`TaskManager::handle`] returns.
pub open spec fn flow_result(flow: Result<TaskFlow, TaskError>) -> Result<TaskFlowView, TaskError> {
    match flow {
        Ok(flow) => Ok(flow@),
        Err(error) => Err(error),
    }
}

impl TaskManagerView {
    /// The flow of a task of `job`.
    pub open spec fn trigger_task(self, trigger_time: u32, job: JobInfoView) -> Result<
        Option<RunTaskView>,
        TaskError,
    > {
        if !(self.sequence_manager && self.job_manager && self.raft_request_route) {
            Err(TaskError::CollaboratorMissing)
        } else if !self.registry.dom().contains(job.app) {
            Ok(None)
        } else {
            Ok(
                Some(
                    RunTaskView::Select {
                        header: self.header,
                        trigger_time,
                        job,
                        instance_keys: self.registry[job.app],
                    },
                ),
            )
        }
    }

    /// The flow of the tasks of the due jobs.
    pub open spec fn trigger_task_list(self, items: Seq<TriggerItemView>) -> Result<
        Option<TriggerTaskListView>,
        TaskError,
    > {
        if items.len() == 0 {
            Ok(None)
        } else if !(self.sequence_manager && self.raft_request_route) {
            Err(TaskError::CollaboratorMissing)
        } else {
            Ok(Some(TriggerTaskListView::FetchIds { header: self.header, items }))
        }
    }

    /// The manager once it has handled `msg`.
    pub open spec fn after(self, msg: TaskManagerReqView) -> Self {
        let registry = match msg {
            TaskManagerReqView::AddAppInstance(app, addr) => with_instance(
                self.registry,
                app,
                addr,
            ),
            TaskManagerReqView::AddAppInstances(keys) => with_instances(self.registry, keys),
            TaskManagerReqView::RemoveAppInstance(app, addr) => without_instance(
                self.registry,
                app,
                addr,
            ),
            TaskManagerReqView::RemoveAppInstances(keys) => without_instances(self.registry, keys),
            _ => self.registry,
        };
        TaskManagerView { registry, ..self }
    }

    /// The flow that `msg` starts.
    pub open spec fn answer(self, msg: TaskManagerReqView) -> Result<TaskFlowView, TaskError> {
        match msg {
            TaskManagerReqView::TriggerTask(trigger_time, job) => match self.trigger_task(
                trigger_time,
                job,
            ) {
                Ok(Some(flow)) => Ok(TaskFlowView::RunTask(flow)),
                Ok(None) => Ok(TaskFlowView::Nothing),
                Err(error) => Err(error),
            },
            TaskManagerReqView::TriggerTaskList(items) => match self.trigger_task_list(items) {
                Ok(Some(flow)) => Ok(TaskFlowView::TriggerTaskList(flow)),
                Ok(None) => Ok(TaskFlowView::Nothing),
                Err(error) => Err(error),
            },
            _ => Ok(TaskFlowView::Nothing),
        }
    }
}

/// In a well-formed manager no application lists an address twice.
pub(crate) proof fn lemma_wf_addresses(manager: TaskManager)
    requires
        manager.wf(),
    ensures
        forall|app: AppKeyView| #[trigger]
            manager@.registry.dom().contains(app) ==> manager@.registry[app].no_duplicates(),
{
    let groups = views(manager.app_instance_group@);
    assert forall|app: AppKeyView| #[trigger]
        manager@.registry.dom().contains(app) implies manager@.registry[app].no_duplicates() by {
        let i = choose|i: int| 0 <= i < groups.len() && (#[trigger] groups[i]).app == app;
        lemma_registry_at(groups, i);
        assert(manager.app_instance_group@[i].wf());
    }
}

impl TaskManager {
    /// Each application has one group, and no address occurs twice in it.
    pub closed spec fn wf(self) -> bool {
        &&& apps_distinct(views(self.app_instance_group@))
        &&& forall|i: int|
            0 <= i < self.app_instance_group@.len() ==> (
            #[trigger] self.app_instance_group@[i]).wf()
    }

    /// A manager that knows no instances and has no collaborators.
    pub fn new(config: Arc<AppConfig>, app_version: &str) -> (manager: Self)
        ensures
            manager.wf(),
            manager@ == (TaskManagerView {
                registry: Map::empty(),
                header: request_header(config.xxl_default_access_token@, app_version@),
                sequence_manager: false,
                job_manager: false,
                raft_request_route: false,
            }),
    {
        broadcast use lemma_views_push;

        let mut header: Vec<(String, String)> = Vec::new();
        header.push(("Content-Type".to_string(), "application/json".to_string()));
        header.push(("User-Agent".to_string(), "ratch-job/".to_string().concat(app_version)));
        if !config.xxl_default_access_token.as_str().is_empty() {
            header.push(
                ("XXL-JOB-ACCESS-TOKEN".to_string(), config.xxl_default_access_token.clone()),
            );
        }
        let manager = TaskManager {
            app_instance_group: Vec::new(),
            xxl_request_header: Arc::new(header),
            sequence_manager: false,
            job_manager: false,
            raft_request_route: false,
        };
        assert(manager@.registry =~= Map::empty());
        manager
    }

    /// Where the group of `app_key` stands.
    fn position(&self, app_key: &AppKey) -> (position: Option<usize>)
        requires
            self.wf(),
        ensures
            match position {
                Some(i) => i < self.app_instance_group.len()
                    && self.app_instance_group[i as int]@.app == app_key@
                    && self@.registry.dom().contains(app_key@) && self@.registry[app_key@]
                    == self.app_instance_group[i as int]@.instance_keys,
                None => !self@.registry.dom().contains(app_key@),
            },
    {
        let ghost groups = views(self.app_instance_group@);
        for i in 0..self.app_instance_group.len()
            invariant
                self.wf(),
                groups == views(self.app_instance_group@),
                forall|j: int| 0 <= j < i ==> (#[trigger] groups[j]).app != app_key@,
        {
            if self.app_instance_group[i].app_key.same(app_key) {
                proof {
                    lemma_registry_at(groups, i as int);
                }
                return Some(i);
            }
        }
        None
    }

    /// Adds an instance to an application.
    pub fn add_app_instance(&mut self, app_key: AppKey, instance_addr: Arc<String>)
        requires
            old(self).wf(),
        ensures
            final(self).wf(),
            final(self)@ == (TaskManagerView {
                registry: with_instance(old(self)@.registry, app_key@, instance_addr@),
                ..old(self)@
            }),
    {
        broadcast use lemma_views_push;

        let ghost groups = views(self.app_instance_group@);
        if let Some(i) = self.position(&app_key) {
            self.app_instance_group[i].add_instance(instance_addr);
            proof {
                let group = self.app_instance_group@[i as int]@;
                lemma_registry_update(groups, i as int, group);
                assert(views(self.app_instance_group@) =~= groups.update(i as int, group));
            }
        } else {
            let mut group = AppInstanceStateGroup::new(app_key.clone());
            group.add_instance(instance_addr);
            proof {
                lemma_registry_push(groups, group@);
                assert(group@.instance_keys =~= seq![instance_addr@]);
            }
            self.app_instance_group.push(group);
        }
    }

    /// Removes an instance from an application, if it is there.
    pub fn remove_app_instance(&mut self, app_key: AppKey, instance_addr: Arc<String>)
        requires
            old(self).wf(),
        ensures
            final(self).wf(),
            final(self)@ == (TaskManagerView {
                registry: without_instance(old(self)@.registry, app_key@, instance_addr@),
                ..old(self)@
            }),
    {
        let ghost groups = views(self.app_instance_group@);
        if let Some(i) = self.position(&app_key) {
            self.app_instance_group[i].remove_instance(instance_addr);
            proof {
                let group = self.app_instance_group@[i as int]@;
                lemma_registry_update(groups, i as int, group);
                assert(views(self.app_instance_group@) =~= groups.update(i as int, group));
            }
        }
    }

    /// Notes which collaborators there are from now on.
    pub fn inject(&mut self, sequence_manager: bool, job_manager: bool, raft_request_route: bool)
        requires
            old(self).wf(),
        ensures
            final(self).wf(),
            final(self)@ == (TaskManagerView {
                sequence_manager,
                job_manager,
                raft_request_route,
                ..old(self)@
            }),
    {
        self.sequence_manager = sequence_manager;
        self.job_manager = job_manager;
        self.raft_request_route = raft_request_route;
    }

    /// What goes with every request to an instance: names and values.
    pub fn xxl_request_header(&self) -> (header: &Vec<(String, String)>)
        ensures
            views(header@) == self@.header,
    {
        &self.xxl_request_header
    }

    /// How to ask for an instance to run `job_info`; none where its application is unknown.
    pub fn select_request(&self, job_info: &JobInfo) -> (request: Option<SelectRequest>)
        requires
            self.wf(),
        ensures
            request is Some <==> self@.registry.dom().contains(job_info@.app),
            request matches Some(r) ==> r@ == SelectRequestView::of_job(
                job_info@,
                self@.registry[job_info@.app],
            ),
    {
        let app_key = job_info.build_app_key();
        if let Some(i) = self.position(&app_key) {
            Some(SelectRequest::of_job(job_info, &self.app_instance_group[i].instance_keys))
        } else {
            None
        }
    }

    /// How to ask for an instance for each of `tasks`, in order; none where the application of a
    /// task is unknown.
    pub fn select_requests(&self, tasks: &Vec<(JobTaskInfo, Arc<JobInfo>)>) -> (requests: Vec<
        Option<SelectRequest>,
    >)
        requires
            self.wf(),
        ensures
            requests.len() == tasks.len(),
            forall|i: int|
                0 <= i < tasks.len() ==> {
                    let job = tasks[i].1@;
                    &&& (#[trigger] requests[i]) is Some <==> self@.registry.dom().contains(job.app)
                    &&& requests[i] matches Some(r) ==> r@ == SelectRequestView::of_job(
                        job,
                        self@.registry[job.app],
                    )
                },
    {
        let mut requests: Vec<Option<SelectRequest>> = Vec::new();
        for i in 0..tasks.len()
            invariant
                self.wf(),
                requests.len() == i,
                forall|k: int|
                    0 <= k < i ==> {
                        let job = tasks[k].1@;
                        &&& (#[trigger] requests[k]) is Some <==> self@.registry.dom().contains(
                            job.app,
                        )
                        &&& requests[k] matches Some(r) ==> r@ == SelectRequestView::of_job(
                            job,
                            self@.registry[job.app],
                        )
                    },
        {
            requests.push(self.select_request(&tasks[i].1));
        }
        requests
    }

    /// Joins the tasks of a flow that waits for it with their instances. `selects` holds what came
    /// of picking an instance for each of these tasks, in order.
    ///
    /// A flow that does not wait for this stays as it is.
    pub fn join_task_list(
        &self,
        flow: TriggerTaskList,
        selects: Vec<InstanceAddrSelectResult>,
        now_second: u32,
    ) -> (next: TriggerTaskList)
        requires
            self.wf(),
            flow@ matches TriggerTaskListView::Wrap { tasks, .. } ==> selects.len() == tasks.len(),
        ensures
            next@ == joined(flow@, self@.registry, views(selects@), now_second),
    {
        if let Action::BuildTaskWrap(tasks) = flow.action() {
            assert(views(tasks@).len() == tasks@.len());
            let (wraps, ignored) = self.build_task_wrap(tasks, selects, now_second);
            flow.resume(Reply::Wrapped(wraps, ignored), now_second)
        } else {
            flow
        }
    }

    /// Joins each task with its instances. `selects` holds what came of picking an instance for
    /// each task, in order; it is not looked at where the application is unknown.
    ///
    /// The tasks that no instance can run come back on their own, given up at `now_second`.
    pub fn build_task_wrap(
        &self,
        tasks: Vec<(JobTaskInfo, Arc<JobInfo>)>,
        selects: Vec<InstanceAddrSelectResult>,
        now_second: u32,
    ) -> (lists: (Vec<TaskWrap>, Vec<Arc<JobTaskInfo>>))
        requires
            self.wf(),
            selects.len() == tasks.len(),
        ensures
            views(lists.0@) == wrapped_tasks(self@.registry, views(tasks@), views(selects@)),
            views(lists.1@) == ignored_tasks(
                self@.registry,
                views(tasks@),
                views(selects@),
                now_second,
            ),
    {
        let ghost all = views(tasks@);
        let ghost picks = views(selects@);
        let mut task_list: Vec<TaskWrap> = Vec::new();
        let mut ignore_task_list: Vec<Arc<JobTaskInfo>> = Vec::new();
        for i in 0..tasks.len()
            invariant
                self.wf(),
                selects.len() == tasks.len(),
                all == views(tasks@),
                picks == views(selects@),
                views(task_list@) == wrapped_tasks(
                    self@.registry,
                    all.take(i as int),
                    picks.take(i as int),
                ),
                views(ignore_task_list@) == ignored_tasks(
                    self@.registry,
                    all.take(i as int),
                    picks.take(i as int),
                    now_second,
                ),
        {
            broadcast use lemma_views_push;

            assert(all.take(i + 1).drop_last() == all.take(i as int));
            assert(picks.take(i + 1).drop_last() == picks.take(i as int));
            let mut task = tasks[i].0.clone();
            let job_info = &tasks[i].1;
            let app_key = job_info.build_app_key();
            let mut group: Option<usize> = self.position(&app_key);
            if let InstanceAddrSelectResult::Empty = &selects[i] {
                group = None;
            }
            if let Some(at) = group {
                task_list.push(
                    TaskWrap {
                        task,
                        job_info: share(job_info),
                        select_result: selects[i].clone(),
                        app_addrs: share_all(&self.app_instance_group[at].instance_keys),
                    },
                );
            } else {
                task.fail(
                    Arc::new(ERR_MSG_NOT_FOUND_APP_INSTANCE_ADDR.to_string()),
                    now_second,
                );
                ignore_task_list.push(Arc::new(task));
            }
        }
        assert(all.take(tasks@.len() as int) == all);
        assert(picks.take(tasks@.len() as int) == picks);
        (task_list, ignore_task_list)
    }

    /// Starts the flow of a task of `job_info`; none where its application is unknown.
    pub fn trigger_task(&self, trigger_time: u32, job_info: Arc<JobInfo>) -> (flow: Result<
        Option<RunTask>,
        TaskError,
    >)
        requires
            self.wf(),
        ensures
            run_task_result(flow) == self@.trigger_task(trigger_time, job_info@),
    {
        if !self.sequence_manager || !self.job_manager || !self.raft_request_route {
            return Err(TaskError::CollaboratorMissing);
        }
        let app_key = AppKey::new(share(&job_info.app_name), share(&job_info.namespace));
        if let Some(i) = self.position(&app_key) {
            let instance_keys = &self.app_instance_group[i].instance_keys;
            return Ok(Some(RunTask::start(
                        share(&self.xxl_request_header),
                        trigger_time,
                        job_info,
                        instance_keys,
                    )));
        }
        Ok(None)
    }

    /// Starts the flow of the tasks of the due jobs; none where there are none.
    pub fn trigger_task_list(&self, trigger_items: Vec<TriggerItem>) -> (flow: Result<
        Option<TriggerTaskList>,
        TaskError,
    >)
        requires
            self.wf(),
        ensures
            task_list_result(flow) == self@.trigger_task_list(views(trigger_items@)),
    {
        if trigger_items.is_empty() {
            return Ok(None);
        }
        if !self.sequence_manager || !self.raft_request_route {
            return Err(TaskError::CollaboratorMissing);
        }
        Ok(Some(TriggerTaskList::start(share(&self.xxl_request_header), trigger_items)))
    }

    /// Handles a request: notes the instances that come and go, or starts a flow.
    pub fn handle(&mut self, msg: TaskManagerReq) -> (flow: Result<TaskFlow, TaskError>)
        requires
            old(self).wf(),
        ensures
            final(self).wf(),
            final(self)@ == old(self)@.after(msg@),
            flow_result(flow) == old(self)@.answer(msg@),
    {
        match msg {
            TaskManagerReq::AddAppInstance(app_key, instance_addr) => {
                self.add_app_instance(app_key, instance_addr);
            },
            TaskManagerReq::AddAppInstances(app_instance_keys) => {
                let ghost before = self@;
                let ghost all = views(app_instance_keys@);
                for i in 0..app_instance_keys.len()
                    invariant
                        self.wf(),
                        all == views(app_instance_keys@),
                        self@ == (TaskManagerView {
                            registry: with_instances(before.registry, all.take(i as int)),
                            ..before
                        }),
                {
                    let keys = &app_instance_keys[i];
                    assert(all.take(i + 1).drop_last() == all.take(i as int));
                    self.add_app_instance(keys.build_app_key(), share(&keys.addr));
                }
                assert(all.take(all.len() as int) == all);
            },
            TaskManagerReq::RemoveAppInstance(app_key, instance_addr) => {
                self.remove_app_instance(app_key, instance_addr);
            },
            TaskManagerReq::RemoveAppInstances(app_instance_keys) => {
                let ghost before = self@;
                let ghost all = views(app_instance_keys@);
                for i in 0..app_instance_keys.len()
                    invariant
                        self.wf(),
                        all == views(app_instance_keys@),
                        self@ == (TaskManagerView {
                            registry: without_instances(before.registry, all.take(i as int)),
                            ..before
                        }),
                {
                    let keys = &app_instance_keys[i];
                    assert(all.take(i + 1).drop_last() == all.take(i as int));
                    self.remove_app_instance(keys.build_app_key(), share(&keys.addr));
                }
                assert(all.take(all.len() as int) == all);
            },
            TaskManagerReq::TriggerTask(trigger_time, job) => {
                match self.trigger_task(trigger_time, job) {
                    Ok(Some(flow)) => {
                        return Ok(TaskFlow::RunTask(flow));
                    },
                    Ok(None) => {},
                    Err(error) => {
                        return Err(error);
                    },
                }
            },
            TaskManagerReq::TriggerTaskList(trigger_list) => {
                match self.trigger_task_list(trigger_list) {
                    Ok(Some(flow)) => {
                        return Ok(TaskFlow::TriggerTaskList(flow));
                    },
                    Ok(None) => {},
                    Err(error) => {
                        return Err(error);
                    },
                }
            },
        }
        Ok(TaskFlow::Nothing)
    }
}

} // verus!
