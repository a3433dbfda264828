//! What a flow asks of its surroundings, and what they answer.
//!
//! A flow never waits by itself. It names one [`Action`] at a time; the surroundings perform it
//! and hand the [`Reply`] back.

use crate::model::{
    AppKey, AppKeyView, InstanceAddrSelectResult, JobInfo, JobInfoView, JobRunParam,
    JobRunParamView, JobTaskInfo, JobTaskView, SelectView, TaskWrap, TaskWrapView,
};
use crate::shared::{share, share_all, views};
use std::sync::Arc;
use vstd::prelude::*;

verus! {

/// The name of the sequence that task ids come from.
pub const SEQ_TASK_ID: &'static str = "SEQ_TASK_ID";

/// Asks for an instance of an application to run a job.
pub struct SelectRequest {
    pub app_key: AppKey,
    /// The addresses to pick from.
    pub instance_keys: Vec<Arc<String>>,
    pub router_strategy: Arc<String>,
    pub job_id: u64,
}

/// The contents of a [`SelectRequest`].
#[verifier::ext_equal]
pub struct SelectRequestView {
    pub app: AppKeyView,
    pub instance_keys: Seq<Seq<char>>,
    pub router_strategy: Seq<char>,
    pub job_id: u64,
}

impl View for SelectRequest {
    type V = SelectRequestView;

    open spec fn view(&self) -> SelectRequestView {
        SelectRequestView {
            app: self.app_key@,
            instance_keys: views(self.instance_keys@),
            router_strategy: self.router_strategy@,
            job_id: self.job_id,
        }
    }
}

impl SelectRequestView {
    /// Asks for one of `instance_keys` to run `job`.
    pub open spec fn of_job(job: JobInfoView, instance_keys: Seq<Seq<char>>) -> Self {
        SelectRequestView {
            app: job.app,
            instance_keys,
            router_strategy: job.router_strategy,
            job_id: job.id,
        }
    }
}

impl SelectRequest {
    /// Asks for one of `instance_keys` to run `job_info`.
    pub(crate) fn of_job(job_info: &JobInfo, instance_keys: &Vec<Arc<String>>) -> (request: Self)
        ensures
            request@ == SelectRequestView::of_job(job_info@, views(instance_keys@)),
    {
        SelectRequest {
            app_key: job_info.build_app_key(),
            instance_keys: share_all(instance_keys),
            router_strategy: share(&job_info.router_strategy),
            job_id: job_info.id,
        }
    }
}

/// A request to the keeper of sequences.
pub enum SequenceRequest {
    /// The next id of the named sequence.
    GetNextId(Arc<String>),
    /// A run of as many ids of the named sequence, one after the other.
    GetDirectRange(Arc<String>, u64),
}

/// The contents of a [`SequenceRequest`].
#[verifier::ext_equal]
pub enum SequenceRequestView {
    GetNextId(Seq<char>),
    GetDirectRange(Seq<char>, u64),
}

impl View for SequenceRequest {
    type V = SequenceRequestView;

    open spec fn view(&self) -> SequenceRequestView {
        match self {
            SequenceRequest::GetNextId(name) => SequenceRequestView::GetNextId(name@),
            SequenceRequest::GetDirectRange(name, len) => SequenceRequestView::GetDirectRange(
                name@,
                *len,
            ),
        }
    }
}

/// A run of consecutive ids, by the first of them.
#[derive(Clone, Copy)]
pub struct SeqRange {
    pub start: u64,
}

/// What the keeper of sequences gives out.
#[derive(Clone, Copy)]
pub enum SequenceResult {
    NextId(u64),
    Range(SeqRange),
}

/// A change to the replicated record of tasks.
pub enum JobManagerRaftReq {
    UpdateTask(Arc<JobTaskInfo>),
    UpdateTaskList(Vec<Arc<JobTaskInfo>>),
}

/// The contents of a [`JobManagerRaftReq`].
#[verifier::ext_equal]
pub enum RaftReqView {
    UpdateTask(JobTaskView),
    UpdateTaskList(Seq<JobTaskView>),
}

impl View for JobManagerRaftReq {
    type V = RaftReqView;

    open spec fn view(&self) -> RaftReqView {
        match self {
            JobManagerRaftReq::UpdateTask(task) => RaftReqView::UpdateTask(task@),
            JobManagerRaftReq::UpdateTaskList(tasks) => RaftReqView::UpdateTaskList(views(tasks@)),
        }
    }
}

/// The names and values that go with a request to an instance.
pub type HeaderView = Seq<(Seq<char>, Seq<char>)>;

/// Asks the instance at `addr` to run a task.
pub struct RunRequest {
    pub addr: Arc<String>,
    /// What goes with the request: names and values.
    pub header: Arc<Vec<(String, String)>>,
    pub param: JobRunParam,
}

/// The contents of a [`RunRequest`].
#[verifier::ext_equal]
pub struct RunRequestView {
    pub addr: Seq<char>,
    pub header: HeaderView,
    pub param: JobRunParamView,
}

impl View for RunRequest {
    type V = RunRequestView;

    open spec fn view(&self) -> RunRequestView {
        RunRequestView { addr: self.addr@, header: views(self.header@), param: self.param@ }
    }
}

/// What a flow wants done before it can go on.
pub enum Action {
    /// Pick an instance; answered by [`Reply::Selected`].
    SelectInstance(SelectRequest),
    /// Ask the keeper of sequences; answered by [`Reply::Sequence`].
    Sequence(SequenceRequest),
    /// Change the replicated record; answered by [`Reply::Raft`].
    Raft(JobManagerRaftReq),
    /// Join each task with its instances; answered by [`Reply::Wrapped`].
    BuildTaskWrap(Vec<(JobTaskInfo, Arc<JobInfo>)>),
    /// Ask an instance to run a task; answered by [`Reply::Run`].
    RunJob(RunRequest),
    /// Tell the job manager of a task; answered by [`Reply::Reported`].
    Report(Arc<JobTaskInfo>),
    /// Nothing: the flow is over.
    Finish,
}

/// The contents of an [`Action`].
#[verifier::ext_equal]
pub enum ActionView {
    SelectInstance(SelectRequestView),
    Sequence(SequenceRequestView),
    Raft(RaftReqView),
    BuildTaskWrap(Seq<(JobTaskView, JobInfoView)>),
    RunJob(RunRequestView),
    Report(JobTaskView),
    Finish,
}

impl View for Action {
    type V = ActionView;

    open spec fn view(&self) -> ActionView {
        match self {
            Action::SelectInstance(request) => ActionView::SelectInstance(request@),
            Action::Sequence(request) => ActionView::Sequence(request@),
            Action::Raft(request) => ActionView::Raft(request@),
            Action::BuildTaskWrap(tasks) => ActionView::BuildTaskWrap(views(tasks@)),
            Action::RunJob(request) => ActionView::RunJob(request@),
            Action::Report(task) => ActionView::Report(task@),
            Action::Finish => ActionView::Finish,
        }
    }
}

/// What came of an [`Action`].
pub enum Reply {
    /// The instance that was picked.
    Selected(InstanceAddrSelectResult),
    /// What the keeper of sequences gave; `None` where the request failed.
    Sequence(Option<SequenceResult>),
    /// Whether the record took the change.
    Raft(bool),
    /// The tasks with their instances, and the tasks that have none.
    Wrapped(Vec<TaskWrap>, Vec<Arc<JobTaskInfo>>),
    /// Whether the instance took the task; if not, why.
    Run(Result<(), Arc<String>>),
    /// The job manager has been told.
    Reported,
}

/// The contents of a [`Reply`].
#[verifier::ext_equal]
pub enum ReplyView {
    Selected(SelectView),
    Sequence(Option<SequenceResult>),
    Raft(bool),
    Wrapped(Seq<TaskWrapView>, Seq<JobTaskView>),
    Run(Result<(), Seq<char>>),
    Reported,
}

/// The contents of an instance's answer.
pub open spec fn run_result_view(result: Result<(), Arc<String>>) -> Result<(), Seq<char>> {
    match result {
        Ok(_) => Ok(()),
        Err(message) => Err(message@),
    }
}

impl View for Reply {
    type V = ReplyView;

    open spec fn view(&self) -> ReplyView {
        match self {
            Reply::Selected(select) => ReplyView::Selected(select@),
            Reply::Sequence(result) => ReplyView::Sequence(*result),
            Reply::Raft(taken) => ReplyView::Raft(*taken),
            Reply::Wrapped(wraps, ignored) => ReplyView::Wrapped(views(wraps@), views(ignored@)),
            Reply::Run(result) => ReplyView::Run(run_result_view(*result)),
            Reply::Reported => ReplyView::Reported,
        }
    }
}

impl Reply {
    /// The reply to [`Action::RunJob`]: what an instance answered, or the text of the error where
    /// it could not be asked or refused. What it answers besides is of no concern.
    pub fn of_run_job<T>(answer: Result<T, String>) -> (reply: Self)
        ensures
            reply@ == match answer {
                Ok(_) => ReplyView::Run(Ok(())),
                Err(message) => ReplyView::Run(Err(message@)),
            },
    {
        match answer {
            Ok(_) => Reply::Run(Ok(())),
            Err(message) => Reply::Run(Err(Arc::new(message))),
        }
    }
}

} // verus!
