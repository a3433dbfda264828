//! The flow that triggers a list of jobs.

use crate::error::TaskError;
use crate::exchange::{
    run_result_view, Action, ActionView, HeaderView, JobManagerRaftReq, RaftReqView, Reply,
    ReplyView, RunRequest, RunRequestView, SeqRange, SequenceRequest, SequenceRequestView,
    SequenceResult, SEQ_TASK_ID,
};
use crate::model::{
    InstanceAddrSelectResult, JobInfo, JobInfoView, JobRunParam, JobRunParamView, JobTaskInfo,
    JobTaskView, SelectView, TaskStatusType, TaskWrap, TaskWrapView, TriggerItem, TriggerItemView,
};
use crate::shared::{lemma_views_push, share, share_all, views};
use std::sync::Arc;
use vstd::prelude::*;

verus! {

/// The task of a due job, under the id that it was given.
pub open spec fn initial_task(item: TriggerItemView, task_id: u64) -> JobTaskView {
    let fresh = JobTaskView::from_job(item.trigger_time, item.job);
    JobTaskView {
        task_id,
        status: TaskStatusType::Init,
        instance_addr: if item.fix_addr.len() == 0 {
            fresh.instance_addr
        } else {
            item.fix_addr
        },
        ..fresh
    }
}

/// The tasks of the due jobs, in order, under consecutive ids from `start` on.
pub open spec fn initial_tasks(items: Seq<TriggerItemView>, start: u64) -> Seq<
    (JobTaskView, JobInfoView),
> {
    Seq::new(items.len(), |i: int| (initial_task(items[i], (start + i) as u64), items[i].job))
}

/// Makes the tasks of the due jobs, under consecutive ids from the start of `range` on.
pub fn init_tasks(trigger_items: &Vec<TriggerItem>, range: SeqRange) -> (tasks: Vec<
    (JobTaskInfo, Arc<JobInfo>),
>)
    requires
        range.start + trigger_items.len() <= u64::MAX,
    ensures
        views(tasks@) == initial_tasks(views(trigger_items@), range.start),
{
    let mut start_id: u64 = range.start;
    let mut tasks: Vec<(JobTaskInfo, Arc<JobInfo>)> = Vec::new();
    for i in 0..trigger_items.len()
        invariant
            range.start + trigger_items.len() <= u64::MAX,
            start_id == range.start + i,
            views(tasks@) == initial_tasks(views(trigger_items@), range.start).take(i as int),
    {
        broadcast use lemma_views_push;

        let item = &trigger_items[i];
        let mut task = JobTaskInfo::from_job(item.trigger_time, &item.job_info);
        if !item.fix_addr.as_str().is_empty() {
            task.instance_addr = share(&item.fix_addr);
        }
        task.task_id = start_id;
        start_id += 1;
        task.status = TaskStatusType::Init;
        tasks.push((task, share(&item.job_info)));
        proof {
            let expected = initial_tasks(views(trigger_items@), range.start);
            assert(task@ == initial_task(item@, (range.start + i) as u64));
            assert(expected.take(i + 1) == expected.take(i as int).push(expected[i as int]));
        }
    }
    tasks
}

/// The range of ids in an answer of the keeper of sequences.
pub fn fetch_task_ids(result: SequenceResult) -> (range: Result<SeqRange, TaskError>)
    ensures
        range == match result {
            SequenceResult::Range(range) => Ok(range),
            SequenceResult::NextId(_) => Err(TaskError::NoTaskIdRange),
        },
{
    if let SequenceResult::Range(range) = result {
        Ok(range)
    } else {
        Err(TaskError::NoTaskIdRange)
    }
}

/// The change that records `tasks`; none where there is nothing to record.
pub fn notify_update_task(tasks: Vec<Arc<JobTaskInfo>>) -> (request: Option<JobManagerRaftReq>)
    ensures
        request is None <==> tasks.len() == 0,
        request matches Some(r) ==> r@ == RaftReqView::UpdateTaskList(views(tasks@)),
{
    if tasks.is_empty() {
        return None;
    }
    Some(JobManagerRaftReq::UpdateTaskList(tasks))
}

impl TaskWrapView {
    /// What the instances of the task are told.
    pub open spec fn param(self) -> JobRunParamView {
        JobRunParamView::of_task(self.task.task_id, self.job, self.task.trigger_time)
    }

    /// The task once its last target has answered `result` at second `now`.
    ///
    /// Where it went to every instance the answers do not matter.
    pub open spec fn answered(self, result: Result<(), Seq<char>>, now: u32) -> JobTaskView {
        match (self.select, result) {
            (SelectView::Empty, _) => self.task,
            (SelectView::All(_), _) => self.task.with_status(TaskStatusType::Running),
            (_, Ok(_)) => self.task.with_status(TaskStatusType::Running),
            (_, Err(message)) => self.task.failed(message, now),
        }
    }

    /// The task where there was no target to send it to.
    pub open spec fn unsent(self) -> JobTaskView {
        if self.select is Empty {
            self.task
        } else {
            self.task.with_status(TaskStatusType::Running)
        }
    }
}

impl TaskWrap {
    /// The task once its last target has answered `result` at second `now_second`.
    fn answered(&self, result: Result<(), Arc<String>>, now_second: u32) -> (task: JobTaskInfo)
        ensures
            task@ == self@.answered(run_result_view(result), now_second),
    {
        let mut task = self.task.clone();
        match &self.select_result {
            InstanceAddrSelectResult::Empty => {},
            InstanceAddrSelectResult::ALL(_) => {
                task.status = TaskStatusType::Running;
            },
            _ => {
                if let Err(message) = result {
                    task.fail(message, now_second);
                } else {
                    task.status = TaskStatusType::Running;
                }
            },
        }
        task
    }

    /// The task where there was no target to send it to.
    fn unsent(&self) -> (task: JobTaskInfo)
        ensures
            task@ == self@.unsent(),
    {
        let mut task = self.task.clone();
        match &self.select_result {
            InstanceAddrSelectResult::Empty => {},
            _ => {
                task.status = TaskStatusType::Running;
            },
        }
        task
    }
}

/// How the flow of a list of tasks came to its end.
#[derive(Clone, Copy, Debug, PartialEq, Eq, Structural)]
pub enum TaskListEnd {
    /// Everything was recorded.
    Completed,
    /// There were no ids for the tasks.
    NoTaskIds,
    /// The record did not take the new tasks.
    TasksNotRecorded,
    /// The record did not take the tasks without instance.
    IgnoredNotRecorded,
    /// The record did not take what became of the tasks that were sent out.
    ResultsNotRecorded,
}

/// Where the flow of a list of tasks stands.
#[verifier::ext_equal]
pub enum TriggerTaskListView {
    /// Waits for the ids of the tasks.
    FetchIds { header: HeaderView, items: Seq<TriggerItemView> },
    /// Waits for the tasks to be recorded.
    StoreInit { header: HeaderView, tasks: Seq<(JobTaskView, JobInfoView)> },
    /// Waits for the tasks to be joined with their instances.
    Wrap { header: HeaderView, tasks: Seq<(JobTaskView, JobInfoView)> },
    /// Waits for the tasks without instance to be recorded.
    StoreIgnored { header: HeaderView, wraps: Seq<TaskWrapView>, ignored: Seq<JobTaskView> },
    /// Waits for the answer of target number `index` of the first task that is not in `done`.
    Run { header: HeaderView, wraps: Seq<TaskWrapView>, done: Seq<JobTaskView>, index: nat },
    /// Waits for the tasks that have been sent out to be recorded.
    StoreDone { done: Seq<JobTaskView> },
    /// Over.
    Finished { end: TaskListEnd },
}

/// The tasks that are done once those after `done` that have no target are done as well.
pub open spec fn settled(wraps: Seq<TaskWrapView>, done: Seq<JobTaskView>) -> Seq<JobTaskView>
    decreases wraps.len() - done.len(),
{
    if done.len() < wraps.len() && wraps[done.len() as int].select.targets().len() == 0 {
        settled(wraps, done.push(wraps[done.len() as int].unsent()))
    } else {
        done
    }
}

impl TriggerTaskListView {
    /// Where the flow stands when the tasks in `done` are done and the others are still to go
    /// out.
    pub open spec fn run_from(
        header: HeaderView,
        wraps: Seq<TaskWrapView>,
        done: Seq<JobTaskView>,
    ) -> Self {
        let settled = settled(wraps, done);
        if settled.len() < wraps.len() {
            TriggerTaskListView::Run { header, wraps, done: settled, index: 0 }
        } else if settled.len() == 0 {
            TriggerTaskListView::Finished { end: TaskListEnd::Completed }
        } else {
            TriggerTaskListView::StoreDone { done: settled }
        }
    }

    /// What the flow wants done.
    pub open spec fn action(self) -> ActionView {
        match self {
            TriggerTaskListView::FetchIds { items, .. } => ActionView::Sequence(
                SequenceRequestView::GetDirectRange(SEQ_TASK_ID@, items.len() as u64),
            ),
            TriggerTaskListView::StoreInit { tasks, .. } => ActionView::Raft(
                RaftReqView::UpdateTaskList(
                    tasks.map_values(|t: (JobTaskView, JobInfoView)| t.0),
                ),
            ),
            TriggerTaskListView::Wrap { tasks, .. } => ActionView::BuildTaskWrap(tasks),
            TriggerTaskListView::StoreIgnored { ignored, .. } => ActionView::Raft(
                RaftReqView::UpdateTaskList(ignored),
            ),
            TriggerTaskListView::Run { header, wraps, done, index } => ActionView::RunJob(
                RunRequestView {
                    addr: wraps[done.len() as int].select.targets()[index as int],
                    header,
                    param: wraps[done.len() as int].param(),
                },
            ),
            TriggerTaskListView::StoreDone { done } => ActionView::Raft(
                RaftReqView::UpdateTaskList(done),
            ),
            TriggerTaskListView::Finished { .. } => ActionView::Finish,
        }
    }

    /// Whether the ids that `reply` gives out suffice for the tasks.
    pub open spec fn ids_fit(self, reply: ReplyView) -> bool {
        match (self, reply) {
            (
                TriggerTaskListView::FetchIds { items, .. },
                ReplyView::Sequence(Some(SequenceResult::Range(range))),
            ) => range.start + items.len() <= u64::MAX,
            _ => true,
        }
    }

    /// Where the flow stands once `reply` has come in at second `now`.
    ///
    /// A reply to anything but the pending action changes nothing.
    pub open spec fn resume(self, reply: ReplyView, now: u32) -> Self {
        match (self, reply) {
            (TriggerTaskListView::FetchIds { header, items }, ReplyView::Sequence(result)) =>
                match result {
                    Some(SequenceResult::Range(range)) => TriggerTaskListView::StoreInit {
                        header,
                        tasks: initial_tasks(items, range.start),
                    },
                    _ => TriggerTaskListView::Finished { end: TaskListEnd::NoTaskIds },
                },
            (TriggerTaskListView::StoreInit { header, tasks }, ReplyView::Raft(taken)) =>
                if taken {
                    TriggerTaskListView::Wrap { header, tasks }
                } else {
                    TriggerTaskListView::Finished { end: TaskListEnd::TasksNotRecorded }
                },
            (TriggerTaskListView::Wrap { header, .. }, ReplyView::Wrapped(wraps, ignored)) =>
                if ignored.len() == 0 {
                    Self::run_from(header, wraps, Seq::empty())
                } else {
                    TriggerTaskListView::StoreIgnored { header, wraps, ignored }
                },
            (TriggerTaskListView::StoreIgnored { header, wraps, .. }, ReplyView::Raft(taken)) =>
                if taken {
                    Self::run_from(header, wraps, Seq::empty())
                } else {
                    TriggerTaskListView::Finished { end: TaskListEnd::IgnoredNotRecorded }
                },
            (TriggerTaskListView::Run { header, wraps, done, index }, ReplyView::Run(result)) => {
                let wrap = wraps[done.len() as int];
                if index + 1 < wrap.select.targets().len() {
                    TriggerTaskListView::Run { header, wraps, done, index: index + 1 }
                } else {
                    Self::run_from(header, wraps, done.push(wrap.answered(result, now)))
                }
            },
            (TriggerTaskListView::StoreDone { .. }, ReplyView::Raft(taken)) =>
                TriggerTaskListView::Finished {
                end: if taken {
                    TaskListEnd::Completed
                } else {
                    TaskListEnd::ResultsNotRecorded
                },
            },
            _ => self,
        }
    }
}

enum TriggerTaskListState {
    FetchIds { header: Arc<Vec<(String, String)>>, items: Vec<TriggerItem> },
    StoreInit { header: Arc<Vec<(String, String)>>, tasks: Vec<(JobTaskInfo, Arc<JobInfo>)> },
    Wrap { header: Arc<Vec<(String, String)>>, tasks: Vec<(JobTaskInfo, Arc<JobInfo>)> },
    StoreIgnored {
        header: Arc<Vec<(String, String)>>,
        wraps: Vec<TaskWrap>,
        ignored: Vec<Arc<JobTaskInfo>>,
    },
    Run {
        header: Arc<Vec<(String, String)>>,
        wraps: Vec<TaskWrap>,
        done: Vec<Arc<JobTaskInfo>>,
        index: usize,
    },
    StoreDone { done: Vec<Arc<JobTaskInfo>> },
    Finished { end: TaskListEnd },
}

/// Triggers a list of jobs: fetches ids, records the tasks, joins them with their instances,
/// sends them out one after the other and records what came of it.
pub struct TriggerTaskList {
    state: TriggerTaskListState,
}

impl View for TriggerTaskList {
    type V = TriggerTaskListView;

    closed spec fn view(&self) -> TriggerTaskListView {
        match self.state {
            TriggerTaskListState::FetchIds { header, items } => TriggerTaskListView::FetchIds {
                header: views(header@),
                items: views(items@),
            },
            TriggerTaskListState::StoreInit { header, tasks } => TriggerTaskListView::StoreInit {
                header: views(header@),
                tasks: views(tasks@),
            },
            TriggerTaskListState::Wrap { header, tasks } => TriggerTaskListView::Wrap {
                header: views(header@),
                tasks: views(tasks@),
            },
            TriggerTaskListState::StoreIgnored { header, wraps, ignored } =>
                TriggerTaskListView::StoreIgnored {
                header: views(header@),
                wraps: views(wraps@),
                ignored: views(ignored@),
            },
            TriggerTaskListState::Run { header, wraps, done, index } => TriggerTaskListView::Run {
                header: views(header@),
                wraps: views(wraps@),
                done: views(done@),
                index: index as nat,
            },
            TriggerTaskListState::StoreDone { done } => TriggerTaskListView::StoreDone {
                done: views(done@),
            },
            TriggerTaskListState::Finished { end } => TriggerTaskListView::Finished { end },
        }
    }
}

impl TriggerTaskList {
    /// No list that is to be recorded is empty, and while tasks are being sent out there is a
    /// target whose answer is awaited.
    #[verifier::type_invariant]
    spec fn wf(self) -> bool {
        match self.state {
            TriggerTaskListState::FetchIds { items, .. } => items@.len() > 0,
            TriggerTaskListState::StoreInit { tasks, .. } => tasks@.len() > 0,
            TriggerTaskListState::StoreIgnored { ignored, .. } => ignored@.len() > 0,
            TriggerTaskListState::Run { wraps, done, index, .. } => {
                &&& done@.len() < wraps@.len()
                &&& index < wraps@[done@.len() as int]@.select.targets().len()
            },
            TriggerTaskListState::StoreDone { done } => done@.len() > 0,
            _ => true,
        }
    }

    /// Starts the flow of the tasks of the due jobs; `header` goes with every request to an
    /// instance.
    pub(crate) fn start(header: Arc<Vec<(String, String)>>, items: Vec<TriggerItem>) -> (flow: Self)
        requires
            items@.len() > 0,
        ensures
            flow@ == (TriggerTaskListView::FetchIds { header: views(header@), items: views(items@) }),
    {
        TriggerTaskList { state: TriggerTaskListState::FetchIds { header, items } }
    }

    /// The flow when the tasks in `done` are done and the others are still to go out.
    fn run_from(
        header: Arc<Vec<(String, String)>>,
        wraps: Vec<TaskWrap>,
        done: Vec<Arc<JobTaskInfo>>,
    ) -> (next: Self)
        requires
            done@.len() <= wraps@.len(),
        ensures
            next@ == TriggerTaskListView::run_from(views(header@), views(wraps@), views(done@)),
    {
        let ghost before = views(done@);
        let mut ended = done;
        while ended.len() < wraps.len()
            invariant
                before == views(done@),
                ended@.len() <= wraps@.len(),
                settled(views(wraps@), views(ended@)) == settled(views(wraps@), before),
            decreases wraps@.len() - ended@.len(),
        {
            broadcast use lemma_views_push;

            let wrap = &wraps[ended.len()];
            if wrap.select_result.target(0).is_some() {
                return TriggerTaskList {
                    state: TriggerTaskListState::Run { header, wraps, done: ended, index: 0 },
                };
            }
            ended.push(Arc::new(wrap.unsent()));
        }
        if ended.is_empty() {
            TriggerTaskList {
                state: TriggerTaskListState::Finished { end: TaskListEnd::Completed },
            }
        } else {
            TriggerTaskList { state: TriggerTaskListState::StoreDone { done: ended } }
        }
    }

    /// Target number `index` of the first task that is not done has answered.
    fn answered(
        header: Arc<Vec<(String, String)>>,
        wraps: Vec<TaskWrap>,
        done: Vec<Arc<JobTaskInfo>>,
        index: usize,
        result: Result<(), Arc<String>>,
        now_second: u32,
    ) -> (next: Self)
        requires
            done@.len() < wraps@.len(),
            index < wraps@[done@.len() as int]@.select.targets().len(),
        ensures
            next@ == (TriggerTaskListView::Run {
                header: views(header@),
                wraps: views(wraps@),
                done: views(done@),
                index: index as nat,
            }).resume(ReplyView::Run(run_result_view(result)), now_second),
    {
        broadcast use lemma_views_push;

        let mut done = done;
        let wrap = &wraps[done.len()];
        if let InstanceAddrSelectResult::ALL(addrs) = &wrap.select_result {
            if index < addrs.len() - 1 {
                return TriggerTaskList {
                    state: TriggerTaskListState::Run { header, wraps, done, index: index + 1 },
                };
            }
        }
        done.push(Arc::new(wrap.answered(result, now_second)));
        Self::run_from(header, wraps, done)
    }

    /// What the flow wants done.
    pub fn action(&self) -> (action: Action)
        ensures
            action@ == self@.action(),
    {
        proof {
            use_type_invariant(self);
        }
        match &self.state {
            TriggerTaskListState::FetchIds { items, .. } => Action::Sequence(
                SequenceRequest::GetDirectRange(
                    Arc::new(SEQ_TASK_ID.to_string()),
                    items.len() as u64,
                ),
            ),
            TriggerTaskListState::StoreInit { tasks, .. } => Self::record(copy_tasks(tasks)),
            TriggerTaskListState::Wrap { tasks, .. } => Action::BuildTaskWrap(copy_list(tasks)),
            TriggerTaskListState::StoreIgnored { ignored, .. } => Self::record(share_all(ignored)),
            TriggerTaskListState::Run { header, wraps, done, index } => {
                let wrap = &wraps[done.len()];
                match wrap.select_result.target(*index) {
                    Some(addr) => Action::RunJob(
                        RunRequest {
                            addr,
                            header: share(header),
                            param: JobRunParam::of_task(
                                wrap.task.task_id,
                                &wrap.job_info,
                                wrap.task.trigger_time,
                            ),
                        },
                    ),
                    None => Action::Finish,
                }
            },
            TriggerTaskListState::StoreDone { done } => Self::record(share_all(done)),
            TriggerTaskListState::Finished { .. } => Action::Finish,
        }
    }

    /// How the flow came to its end, once it has.
    pub fn result(&self) -> (end: Option<TaskListEnd>)
        ensures
            end == match self@ {
                TriggerTaskListView::Finished { end } => Some(end),
                _ => None,
            },
    {
        match &self.state {
            TriggerTaskListState::Finished { end } => Some(*end),
            _ => None,
        }
    }

    /// The action that records `tasks`.
    fn record(tasks: Vec<Arc<JobTaskInfo>>) -> (action: Action)
        requires
            tasks@.len() > 0,
        ensures
            action@ == ActionView::Raft(RaftReqView::UpdateTaskList(views(tasks@))),
    {
        match notify_update_task(tasks) {
            Some(request) => Action::Raft(request),
            None => Action::Finish,
        }
    }

    /// Takes in the reply to the pending action, at second `now_second`.
    pub fn resume(self, reply: Reply, now_second: u32) -> (next: Self)
        requires
            self@.ids_fit(reply@),
        ensures
            next@ == self@.resume(reply@, now_second),
    {
        proof {
            use_type_invariant(&self);
        }
        match (self.state, reply) {
            (TriggerTaskListState::FetchIds { header, items }, Reply::Sequence(result)) => {
                if let Some(result) = result {
                    if let Ok(range) = fetch_task_ids(result) {
                        let tasks = init_tasks(&items, range);
                        assert(views(tasks@).len() == views(items@).len());
                        return TriggerTaskList {
                            state: TriggerTaskListState::StoreInit { header, tasks },
                        };
                    }
                }
                Self::finish(TaskListEnd::NoTaskIds)
            },
            (TriggerTaskListState::StoreInit { header, tasks }, Reply::Raft(taken)) => if taken {
                TriggerTaskList { state: TriggerTaskListState::Wrap { header, tasks } }
            } else {
                Self::finish(TaskListEnd::TasksNotRecorded)
            },
            (TriggerTaskListState::Wrap { header, .. }, Reply::Wrapped(wraps, ignored)) => {
                if ignored.is_empty() {
                    Self::run_all(header, wraps)
                } else {
                    TriggerTaskList {
                        state: TriggerTaskListState::StoreIgnored { header, wraps, ignored },
                    }
                }
            },
            (TriggerTaskListState::StoreIgnored { header, wraps, .. }, Reply::Raft(taken)) => if taken {
                Self::run_all(header, wraps)
            } else {
                Self::finish(TaskListEnd::IgnoredNotRecorded)
            },
            (TriggerTaskListState::Run { header, wraps, done, index }, Reply::Run(result)) =>
                Self::answered(header, wraps, done, index, result, now_second),
            (TriggerTaskListState::StoreDone { .. }, Reply::Raft(taken)) => if taken {
                Self::finish(TaskListEnd::Completed)
            } else {
                Self::finish(TaskListEnd::ResultsNotRecorded)
            },
            (state, _) => TriggerTaskList { state },
        }
    }

    /// The flow at its end.
    fn finish(end: TaskListEnd) -> (next: Self)
        ensures
            next@ == (TriggerTaskListView::Finished { end }),
    {
        TriggerTaskList { state: TriggerTaskListState::Finished { end } }
    }

    /// The flow when all tasks are still to go out.
    fn run_all(header: Arc<Vec<(String, String)>>, wraps: Vec<TaskWrap>) -> (next: Self)
        ensures
            next@ == TriggerTaskListView::run_from(views(header@), views(wraps@), Seq::empty()),
    {
        let done: Vec<Arc<JobTaskInfo>> = Vec::new();
        assert(views(done@) == Seq::<JobTaskView>::empty());
        Self::run_from(header, wraps, done)
    }
}

/// The tasks of a list, each on its own.
fn copy_tasks(tasks: &Vec<(JobTaskInfo, Arc<JobInfo>)>) -> (copies: Vec<Arc<JobTaskInfo>>)
    ensures
        copies@.len() == tasks@.len(),
        views(copies@) == views(tasks@).map_values(|t: (JobTaskView, JobInfoView)| t.0),
{
    let mut copies: Vec<Arc<JobTaskInfo>> = Vec::new();
    for i in 0..tasks.len()
        invariant
            copies@.len() == i,
            forall|j: int| 0 <= j < i ==> (#[trigger] copies@[j])@ == tasks@[j].0@,
    {
        copies.push(Arc::new(tasks[i].0.clone()));
    }
    copies
}

/// A copy of a list of tasks with their jobs.
fn copy_list(tasks: &Vec<(JobTaskInfo, Arc<JobInfo>)>) -> (copies: Vec<
    (JobTaskInfo, Arc<JobInfo>),
>)
    ensures
        copies@ == tasks@,
{
    let mut copies: Vec<(JobTaskInfo, Arc<JobInfo>)> = Vec::new();
    for i in 0..tasks.len()
        invariant
            copies@ == tasks@.take(i as int),
    {
        copies.push((tasks[i].0.clone(), share(&tasks[i].1)));
        assert(tasks@.take(i + 1) == tasks@.take(i as int).push(tasks@[i as int]));
    }
    assert(tasks@.take(tasks@.len() as int) == tasks@);
    copies
}

} // verus!
