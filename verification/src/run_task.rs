//! The flow that runs one task at once.

use crate::exchange::{
    run_result_view, Action, ActionView, HeaderView, JobManagerRaftReq, RaftReqView, Reply,
    ReplyView, RunRequest, RunRequestView, SelectRequest, SelectRequestView, SequenceRequest,
    SequenceRequestView, SequenceResult, SEQ_TASK_ID,
};
use crate::model::{
    InstanceAddrSelectResult, JobInfo, JobInfoView, JobRunParam, JobRunParamView, JobTaskInfo,
    JobTaskView, SelectView, TaskStatusType,
};
use crate::shared::{share, share_all, views};
use std::sync::Arc;
use vstd::prelude::*;

verus! {

/// Where the flow of one task stands.
#[verifier::ext_equal]
pub enum RunTaskView {
    /// Waits for an instance to be picked.
    Select {
        header: HeaderView,
        trigger_time: u32,
        job: JobInfoView,
        instance_keys: Seq<Seq<char>>,
    },
    /// Waits for the task's id.
    FetchId { header: HeaderView, trigger_time: u32, job: JobInfoView, select: SelectView },
    /// Waits for the running task to be recorded.
    StoreRunning {
        header: HeaderView,
        task: JobTaskView,
        param: JobRunParamView,
        select: SelectView,
    },
    /// Waits for the answer of target number `index`.
    Run {
        header: HeaderView,
        task: JobTaskView,
        param: JobRunParamView,
        select: SelectView,
        index: nat,
    },
    /// Waits for the task's end to be recorded.
    StoreFinal { task: JobTaskView },
    /// Waits for the job manager to be told.
    Report { task: JobTaskView },
    /// Over.
    Finished { task: JobTaskView },
}

/// The task as it is recorded before it is sent out.
pub open spec fn started_task(
    trigger_time: u32,
    job: JobInfoView,
    select: SelectView,
    task_id: u64,
) -> JobTaskView {
    let fresh = JobTaskView::from_job(trigger_time, job);
    JobTaskView {
        task_id,
        status: TaskStatusType::Running,
        instance_addr: match select {
            SelectView::Selected(addr) => addr,
            _ => fresh.instance_addr,
        },
        ..fresh
    }
}

impl RunTaskView {
    /// What the flow wants done.
    pub open spec fn action(self) -> ActionView {
        match self {
            RunTaskView::Select { job, instance_keys, .. } => ActionView::SelectInstance(
                SelectRequestView::of_job(job, instance_keys),
            ),
            RunTaskView::FetchId { .. } => ActionView::Sequence(
                SequenceRequestView::GetNextId(SEQ_TASK_ID@),
            ),
            RunTaskView::StoreRunning { task, .. } => ActionView::Raft(
                RaftReqView::UpdateTask(task),
            ),
            RunTaskView::Run { header, param, select, index, .. } => ActionView::RunJob(
                RunRequestView { addr: select.targets()[index as int], header, param },
            ),
            RunTaskView::StoreFinal { task } => ActionView::Raft(RaftReqView::UpdateTask(task)),
            RunTaskView::Report { task } => ActionView::Report(task),
            RunTaskView::Finished { .. } => ActionView::Finish,
        }
    }

    /// Where the flow stands once `reply` has come in at second `now`.
    ///
    /// A reply to anything but the pending action changes nothing.
    pub open spec fn resume(self, reply: ReplyView, now: u32) -> RunTaskView {
        match (self, reply) {
            (RunTaskView::Select { header, trigger_time, job, .. }, ReplyView::Selected(select)) =>
                RunTaskView::FetchId { header, trigger_time, job, select },
            (RunTaskView::FetchId { header, trigger_time, job, select }, ReplyView::Sequence(result)) =>
                match result {
                    Some(SequenceResult::NextId(id)) => RunTaskView::StoreRunning {
                        header,
                        task: started_task(trigger_time, job, select, id),
                        param: JobRunParamView::of_task(id, job, trigger_time),
                        select,
                    },
                    _ => RunTaskView::StoreFinal {
                        task: JobTaskView::from_job(trigger_time, job).failed(
                            "get task id error!"@,
                            now,
                        ),
                    },
                },
            (RunTaskView::StoreRunning { header, task, param, select }, ReplyView::Raft(_)) =>
                if select is Empty {
                    RunTaskView::StoreFinal { task: task.failed("no instance selected"@, now) }
                } else if select.targets().len() == 0 {
                    RunTaskView::StoreFinal { task }
                } else {
                    RunTaskView::Run { header, task, param, select, index: 0 }
                },
            (RunTaskView::Run { header, task, param, select, index }, ReplyView::Run(result)) =>
                if index + 1 < select.targets().len() {
                    RunTaskView::Run { header, task, param, select, index: index + 1 }
                } else if select is All {
                    RunTaskView::StoreFinal { task }
                } else {
                    match result {
                        Ok(_) => RunTaskView::StoreFinal { task },
                        Err(message) => RunTaskView::StoreFinal { task: task.failed(message, now) },
                    }
                },
            (RunTaskView::StoreFinal { task }, ReplyView::Raft(_)) =>
                if task.status == TaskStatusType::Error {
                    RunTaskView::Report { task: JobTaskView { finish_time: now, ..task } }
                } else {
                    RunTaskView::Finished { task }
                },
            (RunTaskView::Report { task }, ReplyView::Reported) => RunTaskView::Finished { task },
            _ => self,
        }
    }
}

enum RunTaskState {
    Select {
        header: Arc<Vec<(String, String)>>,
        trigger_time: u32,
        job_info: Arc<JobInfo>,
        instance_keys: Vec<Arc<String>>,
    },
    FetchId {
        header: Arc<Vec<(String, String)>>,
        trigger_time: u32,
        job_info: Arc<JobInfo>,
        select: InstanceAddrSelectResult,
    },
    StoreRunning {
        header: Arc<Vec<(String, String)>>,
        task: JobTaskInfo,
        param: JobRunParam,
        select: InstanceAddrSelectResult,
    },
    Run {
        header: Arc<Vec<(String, String)>>,
        task: JobTaskInfo,
        param: JobRunParam,
        select: InstanceAddrSelectResult,
        index: usize,
    },
    StoreFinal { task: JobTaskInfo },
    Report { task: JobTaskInfo },
    Finished { task: JobTaskInfo },
}

/// Runs one task: picks its instance, fetches its id, records it, sends it out and records its
/// end.
pub struct RunTask {
    state: RunTaskState,
}

impl View for RunTask {
    type V = RunTaskView;

    closed spec fn view(&self) -> RunTaskView {
        match self.state {
            RunTaskState::Select { header, trigger_time, job_info, instance_keys } =>
                RunTaskView::Select {
                header: views(header@),
                trigger_time,
                job: job_info@,
                instance_keys: views(instance_keys@),
            },
            RunTaskState::FetchId { header, trigger_time, job_info, select } =>
                RunTaskView::FetchId {
                header: views(header@),
                trigger_time,
                job: job_info@,
                select: select@,
            },
            RunTaskState::StoreRunning { header, task, param, select } =>
                RunTaskView::StoreRunning {
                header: views(header@),
                task: task@,
                param: param@,
                select: select@,
            },
            RunTaskState::Run { header, task, param, select, index } => RunTaskView::Run {
                header: views(header@),
                task: task@,
                param: param@,
                select: select@,
                index: index as nat,
            },
            RunTaskState::StoreFinal { task } => RunTaskView::StoreFinal { task: task@ },
            RunTaskState::Report { task } => RunTaskView::Report { task: task@ },
            RunTaskState::Finished { task } => RunTaskView::Finished { task: task@ },
        }
    }
}

impl RunTask {
    /// While the task is being sent out there is a target whose answer is awaited.
    #[verifier::type_invariant]
    spec fn wf(self) -> bool {
        self.state matches RunTaskState::Run { select, index, .. } ==> index
            < select@.targets().len()
    }

    /// Starts the flow of a task of `job_info`, to run on one of `instance_keys`; `header` goes
    /// with every request to an instance.
    pub(crate) fn start(
        header: Arc<Vec<(String, String)>>,
        trigger_time: u32,
        job_info: Arc<JobInfo>,
        instance_keys: &Vec<Arc<String>>,
    ) -> (flow: Self)
        ensures
            flow@ == (RunTaskView::Select {
                header: views(header@),
                trigger_time,
                job: job_info@,
                instance_keys: views(instance_keys@),
            }),
    {
        RunTask {
            state: RunTaskState::Select {
                header,
                trigger_time,
                job_info,
                instance_keys: share_all(instance_keys),
            },
        }
    }

    /// What the flow wants done.
    pub fn action(&self) -> (action: Action)
        ensures
            action@ == self@.action(),
    {
        proof {
            use_type_invariant(self);
        }
        match &self.state {
            RunTaskState::Select { job_info, instance_keys, .. } => Action::SelectInstance(
                SelectRequest::of_job(job_info, instance_keys),
            ),
            RunTaskState::FetchId { .. } => Action::Sequence(
                SequenceRequest::GetNextId(Arc::new(SEQ_TASK_ID.to_string())),
            ),
            RunTaskState::StoreRunning { task, .. } => Action::Raft(
                JobManagerRaftReq::UpdateTask(Arc::new(task.clone())),
            ),
            RunTaskState::Run { header, param, select, index, .. } => match select.target(*index) {
                Some(addr) => Action::RunJob(
                    RunRequest { addr, header: share(header), param: param.clone() },
                ),
                None => Action::Finish,
            },
            RunTaskState::StoreFinal { task } => Action::Raft(
                JobManagerRaftReq::UpdateTask(Arc::new(task.clone())),
            ),
            RunTaskState::Report { task } => Action::Report(Arc::new(task.clone())),
            RunTaskState::Finished { .. } => Action::Finish,
        }
    }

    /// The task, once the flow is over.
    pub fn result(&self) -> (task: Option<&JobTaskInfo>)
        ensures
            task is Some <==> self@ is Finished,
            task matches Some(t) ==> self@ == (RunTaskView::Finished { task: t@ }),
    {
        match &self.state {
            RunTaskState::Finished { task } => Some(task),
            _ => None,
        }
    }

    /// Takes in the reply to the pending action, at second `now_second`.
    pub fn resume(self, reply: Reply, now_second: u32) -> (next: Self)
        ensures
            next@ == self@.resume(reply@, now_second),
    {
        proof {
            use_type_invariant(&self);
        }
        match (self.state, reply) {
            (
                RunTaskState::Select { header, trigger_time, job_info, .. },
                Reply::Selected(select),
            ) => RunTask { state: RunTaskState::FetchId { header, trigger_time, job_info, select } },
            (
                RunTaskState::FetchId { header, trigger_time, job_info, select },
                Reply::Sequence(result),
            ) => Self::begin(header, trigger_time, job_info, select, result, now_second),
            (
                RunTaskState::StoreRunning { header, task, param, select },
                Reply::Raft(_),
            ) => Self::send_out(header, task, param, select, now_second),
            (
                RunTaskState::Run { header, task, param, select, index },
                Reply::Run(result),
            ) => Self::answered(header, task, param, select, index, result, now_second),
            (RunTaskState::StoreFinal { task }, Reply::Raft(_)) => Self::close(task, now_second),
            (RunTaskState::Report { task }, Reply::Reported) => RunTask {
                state: RunTaskState::Finished { task },
            },
            (state, _) => RunTask { state },
        }
    }

    /// The task's id has come in, or has not.
    fn begin(
        header: Arc<Vec<(String, String)>>,
        trigger_time: u32,
        job_info: Arc<JobInfo>,
        select: InstanceAddrSelectResult,
        result: Option<SequenceResult>,
        now_second: u32,
    ) -> (next: Self)
        ensures
            next@ == (RunTaskView::FetchId {
                header: views(header@),
                trigger_time,
                job: job_info@,
                select: select@,
            }).resume(ReplyView::Sequence(result), now_second),
    {
        let mut task = JobTaskInfo::from_job(trigger_time, &job_info);
        if let Some(SequenceResult::NextId(task_id)) = result {
            task.task_id = task_id;
            let param = JobRunParam::of_task(task_id, &job_info, trigger_time);
            task.status = TaskStatusType::Running;
            if let InstanceAddrSelectResult::Selected(addr) = &select {
                task.instance_addr = share(addr);
            }
            RunTask { state: RunTaskState::StoreRunning { header, task, param, select } }
        } else {
            task.fail(Arc::new("get task id error!".to_string()), now_second);
            RunTask { state: RunTaskState::StoreFinal { task } }
        }
    }

    /// The running task has been recorded: it goes out to its first target.
    fn send_out(
        header: Arc<Vec<(String, String)>>,
        task: JobTaskInfo,
        param: JobRunParam,
        select: InstanceAddrSelectResult,
        now_second: u32,
    ) -> (next: Self)
        ensures
            forall|taken: bool|
                next@ == #[trigger] (RunTaskView::StoreRunning {
                    header: views(header@),
                    task: task@,
                    param: param@,
                    select: select@,
                }).resume(ReplyView::Raft(taken), now_second),
    {
        let mut task = task;
        if let InstanceAddrSelectResult::Empty = &select {
            task.fail(Arc::new("no instance selected".to_string()), now_second);
            return RunTask { state: RunTaskState::StoreFinal { task } };
        }
        if select.target(0).is_some() {
            RunTask { state: RunTaskState::Run { header, task, param, select, index: 0 } }
        } else {
            RunTask { state: RunTaskState::StoreFinal { task } }
        }
    }

    /// Target number `index` has answered.
    fn answered(
        header: Arc<Vec<(String, String)>>,
        task: JobTaskInfo,
        param: JobRunParam,
        select: InstanceAddrSelectResult,
        index: usize,
        result: Result<(), Arc<String>>,
        now_second: u32,
    ) -> (next: Self)
        requires
            index < select@.targets().len(),
        ensures
            next@ == (RunTaskView::Run {
                header: views(header@),
                task: task@,
                param: param@,
                select: select@,
                index: index as nat,
            }).resume(ReplyView::Run(run_result_view(result)), now_second),
    {
        let mut task = task;
        if let InstanceAddrSelectResult::ALL(addrs) = &select {
            if index < addrs.len() - 1 {
                return RunTask {
                    state: RunTaskState::Run { header, task, param, select, index: index + 1 },
                };
            }
        } else if let Err(message) = result {
            task.fail(message, now_second);
        }
        RunTask { state: RunTaskState::StoreFinal { task } }
    }

    /// The task's end has been recorded: an error is told to the job manager as well.
    fn close(task: JobTaskInfo, now_second: u32) -> (next: Self)
        ensures
            forall|taken: bool|
                next@ == #[trigger] (RunTaskView::StoreFinal { task: task@ }).resume(
                    ReplyView::Raft(taken),
                    now_second,
                ),
    {
        let mut task = task;
        if task.status == TaskStatusType::Error {
            task.finish_time = now_second;
            RunTask { state: RunTaskState::Report { task } }
        } else {
            RunTask { state: RunTaskState::Finished { task } }
        }
    }
}

} // verus!
