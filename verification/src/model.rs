//! Jobs, tasks and the instances that run them.

use crate::shared::{same_text, share, share_all, views};
use std::sync::Arc;
use vstd::prelude::*;

verus! {

/// The settings that the task manager reads.
pub struct AppConfig {
    /// The token that executors ask for; empty where they ask for none.
    pub xxl_default_access_token: String,
}

/// What identifies an application: its name within a namespace.
pub struct AppKey {
    pub app_name: Arc<String>,
    pub namespace: Arc<String>,
}

/// The contents of an [`AppKey`].
#[verifier::ext_equal]
pub struct AppKeyView {
    pub app_name: Seq<char>,
    pub namespace: Seq<char>,
}

impl View for AppKey {
    type V = AppKeyView;

    open spec fn view(&self) -> AppKeyView {
        AppKeyView { app_name: self.app_name@, namespace: self.namespace@ }
    }
}

impl AppKey {
    pub fn new(app_name: Arc<String>, namespace: Arc<String>) -> (key: Self)
        ensures
            key@ == (AppKeyView { app_name: app_name@, namespace: namespace@ }),
    {
        AppKey { app_name, namespace }
    }

    /// Whether two keys name the same application.
    pub(crate) fn same(&self, other: &AppKey) -> (same: bool)
        ensures
            same == (self@ == other@),
    {
        same_text(&self.app_name, &other.app_name) && same_text(&self.namespace, &other.namespace)
    }
}

impl Clone for AppKey {
    fn clone(&self) -> (copy: Self)
        ensures
            copy == *self,
    {
        AppKey { app_name: share(&self.app_name), namespace: share(&self.namespace) }
    }
}

/// An instance of an application: the application and the address of the instance.
pub struct AppInstanceKey {
    pub app_name: Arc<String>,
    pub namespace: Arc<String>,
    pub addr: Arc<String>,
}

/// The contents of an [`AppInstanceKey`].
#[verifier::ext_equal]
pub struct AppInstanceKeyView {
    pub app: AppKeyView,
    pub addr: Seq<char>,
}

impl View for AppInstanceKey {
    type V = AppInstanceKeyView;

    open spec fn view(&self) -> AppInstanceKeyView {
        AppInstanceKeyView {
            app: AppKeyView { app_name: self.app_name@, namespace: self.namespace@ },
            addr: self.addr@,
        }
    }
}

impl AppInstanceKey {
    /// The application that the instance belongs to.
    pub fn build_app_key(&self) -> (key: AppKey)
        ensures
            key@ == self@.app,
    {
        AppKey::new(share(&self.app_name), share(&self.namespace))
    }
}

/// What the task manager reads of a job.
pub struct JobInfo {
    pub id: u64,
    pub app_name: Arc<String>,
    pub namespace: Arc<String>,
    /// The name of the strategy that picks an instance; handed on unread.
    pub router_strategy: Arc<String>,
}

/// The contents of a [`JobInfo`].
#[verifier::ext_equal]
pub struct JobInfoView {
    pub id: u64,
    pub app: AppKeyView,
    pub router_strategy: Seq<char>,
}

impl View for JobInfo {
    type V = JobInfoView;

    open spec fn view(&self) -> JobInfoView {
        JobInfoView {
            id: self.id,
            app: AppKeyView { app_name: self.app_name@, namespace: self.namespace@ },
            router_strategy: self.router_strategy@,
        }
    }
}

impl JobInfo {
    /// The application whose instances run the job.
    pub fn build_app_key(&self) -> (key: AppKey)
        ensures
            key@ == self@.app,
    {
        AppKey::new(share(&self.app_name), share(&self.namespace))
    }
}

/// How far a task has come.
#[derive(Clone, Copy, Debug, PartialEq, Eq, Structural)]
pub enum TaskStatusType {
    /// Recorded, not handed to an instance yet.
    Init,
    /// Handed to its instance or instances.
    Running,
    /// Given up before an instance took it.
    Error,
}

/// One run of a job.
pub struct JobTaskInfo {
    pub task_id: u64,
    pub job_id: u64,
    /// In seconds.
    pub trigger_time: u32,
    pub instance_addr: Arc<String>,
    pub trigger_message: Arc<String>,
    pub status: TaskStatusType,
    /// In seconds; zero until the task ends.
    pub finish_time: u32,
}

/// The contents of a [`JobTaskInfo`].
#[verifier::ext_equal]
pub struct JobTaskView {
    pub task_id: u64,
    pub job_id: u64,
    pub trigger_time: u32,
    pub instance_addr: Seq<char>,
    pub trigger_message: Seq<char>,
    pub status: TaskStatusType,
    pub finish_time: u32,
}

impl View for JobTaskInfo {
    type V = JobTaskView;

    open spec fn view(&self) -> JobTaskView {
        JobTaskView {
            task_id: self.task_id,
            job_id: self.job_id,
            trigger_time: self.trigger_time,
            instance_addr: self.instance_addr@,
            trigger_message: self.trigger_message@,
            status: self.status,
            finish_time: self.finish_time,
        }
    }
}

impl JobTaskView {
    /// A fresh task of `job`: no id, no address, no message, not finished.
    pub open spec fn from_job(trigger_time: u32, job: JobInfoView) -> Self {
        JobTaskView {
            task_id: 0,
            job_id: job.id,
            trigger_time,
            instance_addr: Seq::empty(),
            trigger_message: Seq::empty(),
            status: TaskStatusType::Init,
            finish_time: 0,
        }
    }

    /// The task given up at `finish_time` for the reason in `message`.
    pub open spec fn failed(self, message: Seq<char>, finish_time: u32) -> Self {
        JobTaskView {
            status: TaskStatusType::Error,
            trigger_message: message,
            finish_time,
            ..self
        }
    }

    /// The task with another status and nothing else changed.
    pub open spec fn with_status(self, status: TaskStatusType) -> Self {
        JobTaskView { status, ..self }
    }
}

impl JobTaskInfo {
    /// A fresh task of `job_info`, triggered at `trigger_time`.
    pub fn from_job(trigger_time: u32, job_info: &JobInfo) -> (task: Self)
        ensures
            task@ == JobTaskView::from_job(trigger_time, job_info@),
    {
        JobTaskInfo {
            task_id: 0,
            job_id: job_info.id,
            trigger_time,
            instance_addr: Arc::new(String::new()),
            trigger_message: Arc::new(String::new()),
            status: TaskStatusType::Init,
            finish_time: 0,
        }
    }

    /// Gives the task up at `finish_time`, for the reason in `message`.
    pub(crate) fn fail(&mut self, message: Arc<String>, finish_time: u32)
        ensures
            final(self)@ == old(self)@.failed(message@, finish_time),
    {
        self.status = TaskStatusType::Error;
        self.trigger_message = message;
        self.finish_time = finish_time;
    }
}

impl Clone for JobTaskInfo {
    fn clone(&self) -> (copy: Self)
        ensures
            copy == *self,
    {
        JobTaskInfo {
            task_id: self.task_id,
            job_id: self.job_id,
            trigger_time: self.trigger_time,
            instance_addr: share(&self.instance_addr),
            trigger_message: share(&self.trigger_message),
            status: self.status,
            finish_time: self.finish_time,
        }
    }
}

/// A job that is due.
pub struct TriggerItem {
    pub trigger_time: u32,
    pub job_info: Arc<JobInfo>,
    /// The address that the task is recorded with; empty where none is fixed.
    pub fix_addr: Arc<String>,
}

/// The contents of a [`TriggerItem`].
#[verifier::ext_equal]
pub struct TriggerItemView {
    pub trigger_time: u32,
    pub job: JobInfoView,
    pub fix_addr: Seq<char>,
}

impl View for TriggerItem {
    type V = TriggerItemView;

    open spec fn view(&self) -> TriggerItemView {
        TriggerItemView {
            trigger_time: self.trigger_time,
            job: self.job_info@,
            fix_addr: self.fix_addr@,
        }
    }
}

/// What came of picking an instance for a task.
pub enum InstanceAddrSelectResult {
    /// The address that the job insists on.
    Fixed(Arc<String>),
    /// The address that the strategy picked.
    Selected(Arc<String>),
    /// Every one of these addresses runs the task.
    ALL(Vec<Arc<String>>),
    /// There is no instance to run the task.
    Empty,
}

/// The contents of an [`InstanceAddrSelectResult`].
#[verifier::ext_equal]
pub enum SelectView {
    Fixed(Seq<char>),
    Selected(Seq<char>),
    All(Seq<Seq<char>>),
    Empty,
}

impl View for InstanceAddrSelectResult {
    type V = SelectView;

    open spec fn view(&self) -> SelectView {
        match self {
            InstanceAddrSelectResult::Fixed(addr) => SelectView::Fixed(addr@),
            InstanceAddrSelectResult::Selected(addr) => SelectView::Selected(addr@),
            InstanceAddrSelectResult::ALL(addrs) => SelectView::All(views(addrs@)),
            InstanceAddrSelectResult::Empty => SelectView::Empty,
        }
    }
}

impl SelectView {
    /// The addresses that the task is sent to, in order.
    pub open spec fn targets(self) -> Seq<Seq<char>> {
        match self {
            SelectView::Fixed(addr) => seq![addr],
            SelectView::Selected(addr) => seq![addr],
            SelectView::All(addrs) => addrs,
            SelectView::Empty => Seq::empty(),
        }
    }
}

impl InstanceAddrSelectResult {
    /// Address number `index` of those that the task is sent to, if there is one.
    pub(crate) fn target(&self, index: usize) -> (addr: Option<Arc<String>>)
        ensures
            index < self@.targets().len() <==> addr is Some,
            addr matches Some(a) ==> a@ == self@.targets()[index as int],
    {
        match self {
            InstanceAddrSelectResult::Fixed(addr) => if index == 0 {
                Some(share(addr))
            } else {
                None
            },
            InstanceAddrSelectResult::Selected(addr) => if index == 0 {
                Some(share(addr))
            } else {
                None
            },
            InstanceAddrSelectResult::ALL(addrs) => if index < addrs.len() {
                Some(share(&addrs[index]))
            } else {
                None
            },
            InstanceAddrSelectResult::Empty => None,
        }
    }
}

impl Clone for InstanceAddrSelectResult {
    fn clone(&self) -> (copy: Self)
        ensures
            copy@ == self@,
    {
        match self {
            InstanceAddrSelectResult::Fixed(addr) => InstanceAddrSelectResult::Fixed(share(addr)),
            InstanceAddrSelectResult::Selected(addr) => InstanceAddrSelectResult::Selected(
                share(addr),
            ),
            InstanceAddrSelectResult::ALL(addrs) => InstanceAddrSelectResult::ALL(share_all(addrs)),
            InstanceAddrSelectResult::Empty => InstanceAddrSelectResult::Empty,
        }
    }
}

/// A task together with the instances that are to run it.
pub struct TaskWrap {
    pub task: JobTaskInfo,
    pub job_info: Arc<JobInfo>,
    pub select_result: InstanceAddrSelectResult,
    /// Every instance of the application.
    pub app_addrs: Vec<Arc<String>>,
}

/// The contents of a [`TaskWrap`].
#[verifier::ext_equal]
pub struct TaskWrapView {
    pub task: JobTaskView,
    pub job: JobInfoView,
    pub select: SelectView,
    pub app_addrs: Seq<Seq<char>>,
}

impl View for TaskWrap {
    type V = TaskWrapView;

    open spec fn view(&self) -> TaskWrapView {
        TaskWrapView {
            task: self.task@,
            job: self.job_info@,
            select: self.select_result@,
            app_addrs: views(self.app_addrs@),
        }
    }
}

/// What an instance is told when it is to run a task.
pub struct JobRunParam {
    pub task_id: u64,
    pub job_info: Arc<JobInfo>,
    /// The trigger time, in milliseconds.
    pub log_date_time: Option<u64>,
}

/// The contents of a [`JobRunParam`].
#[verifier::ext_equal]
pub struct JobRunParamView {
    pub task_id: u64,
    pub job: JobInfoView,
    pub log_date_time: Option<u64>,
}

impl View for JobRunParam {
    type V = JobRunParamView;

    open spec fn view(&self) -> JobRunParamView {
        JobRunParamView {
            task_id: self.task_id,
            job: self.job_info@,
            log_date_time: self.log_date_time,
        }
    }
}

impl JobRunParamView {
    /// The parameters of a run of `job` as task `task_id`, triggered at second `trigger_time`.
    pub open spec fn of_task(task_id: u64, job: JobInfoView, trigger_time: u32) -> Self {
        JobRunParamView { task_id, job, log_date_time: Some((trigger_time * 1000) as u64) }
    }
}

impl JobRunParam {
    /// The parameters of a run of `job_info` as task `task_id`, with no time set.
    pub fn from_job_info(task_id: u64, job_info: &Arc<JobInfo>) -> (param: Self)
        ensures
            param@ == (JobRunParamView { task_id, job: job_info@, log_date_time: None }),
    {
        JobRunParam { task_id, job_info: share(job_info), log_date_time: None }
    }

    /// The parameters of a run of `job_info` as task `task_id`, triggered at second
    /// `trigger_time`.
    pub(crate) fn of_task(task_id: u64, job_info: &Arc<JobInfo>, trigger_time: u32) -> (param: Self)
        ensures
            param@ == JobRunParamView::of_task(task_id, job_info@, trigger_time),
    {
        let mut param = JobRunParam::from_job_info(task_id, job_info);
        param.log_date_time = Some(trigger_time as u64 * 1000);
        param
    }
}

impl Clone for JobRunParam {
    fn clone(&self) -> (copy: Self)
        ensures
            copy == *self,
    {
        JobRunParam {
            task_id: self.task_id,
            job_info: share(&self.job_info),
            log_date_time: self.log_date_time,
        }
    }
}

} // verus!
