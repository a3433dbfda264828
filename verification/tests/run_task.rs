use ratch_job::exchange::{
    Action, JobManagerRaftReq, Reply, SeqRange, SequenceRequest, SequenceResult, SEQ_TASK_ID,
};
use ratch_job::manager::{TaskFlow, TaskManager, TaskManagerReq};
use ratch_job::model::{
    AppConfig, AppKey, InstanceAddrSelectResult, JobInfo, JobTaskInfo, TaskStatusType,
};
use ratch_job::run_task::RunTask;
use std::sync::Arc;

fn text(s: &str) -> Arc<String> {
    Arc::new(s.to_string())
}

fn started(trigger_time: u32) -> RunTask {
    let config = Arc::new(AppConfig { xxl_default_access_token: "t0k".to_string() });
    let mut manager = TaskManager::new(config, "0.1.0");
    manager.inject(true, true, true);
    manager.add_app_instance(AppKey::new(text("app"), text("ns")), text("x"));
    manager.add_app_instance(AppKey::new(text("app"), text("ns")), text("y"));
    let job = Arc::new(JobInfo {
        id: 42,
        app_name: text("app"),
        namespace: text("ns"),
        router_strategy: text("ROUND"),
    });
    match manager.handle(TaskManagerReq::TriggerTask(trigger_time, job)) {
        Ok(TaskFlow::RunTask(flow)) => flow,
        _ => panic!("no flow"),
    }
}

fn recorded(flow: &RunTask) -> Arc<JobTaskInfo> {
    match flow.action() {
        Action::Raft(JobManagerRaftReq::UpdateTask(task)) => task,
        _ => panic!("nothing to record"),
    }
}

fn with_id(select: InstanceAddrSelectResult) -> RunTask {
    started(1_700_000_000)
        .resume(Reply::Selected(select), 1)
        .resume(Reply::Sequence(Some(SequenceResult::NextId(9))), 2)
}

#[test]
fn asks_for_an_instance_and_an_id_first() {
    let flow = started(5);
    match flow.action() {
        Action::SelectInstance(request) => {
            assert_eq!(request.job_id, 42);
            assert_eq!(request.router_strategy.as_str(), "ROUND");
            assert_eq!(request.instance_keys, vec![text("x"), text("y")]);
        }
        _ => panic!("wrong action"),
    }
    let flow = flow.resume(Reply::Selected(InstanceAddrSelectResult::Empty), 1);
    match flow.action() {
        Action::Sequence(SequenceRequest::GetNextId(name)) => {
            assert_eq!(name.as_str(), SEQ_TASK_ID);
        }
        _ => panic!("wrong action"),
    }
}

#[test]
fn selected_instance_takes_the_task() {
    let flow = with_id(InstanceAddrSelectResult::Selected(text("x")));
    let task = recorded(&flow);
    assert_eq!(task.task_id, 9);
    assert_eq!(task.job_id, 42);
    assert_eq!(task.status, TaskStatusType::Running);
    assert_eq!(task.instance_addr.as_str(), "x");
    assert_eq!(task.finish_time, 0);
    let flow = flow.resume(Reply::Raft(false), 3);
    match flow.action() {
        Action::RunJob(request) => {
            assert_eq!(request.addr.as_str(), "x");
            assert_eq!(request.header.len(), 3);
            assert_eq!(
                request.header[2],
                ("XXL-JOB-ACCESS-TOKEN".to_string(), "t0k".to_string())
            );
            assert_eq!(request.param.task_id, 9);
            assert_eq!(request.param.job_info.id, 42);
            assert_eq!(request.param.log_date_time, Some(1_700_000_000_000));
        }
        _ => panic!("wrong action"),
    }
    let flow = flow.resume(Reply::Run(Ok(())), 4);
    let task = recorded(&flow);
    assert_eq!(task.status, TaskStatusType::Running);
    assert_eq!(task.finish_time, 0);
    assert_eq!(task.trigger_message.as_str(), "");
    assert!(flow.result().is_none());
    let flow = flow.resume(Reply::Raft(true), 5);
    assert!(matches!(flow.action(), Action::Finish));
    assert_eq!(flow.result().map(|t| (t.task_id, t.status)), Some((9, TaskStatusType::Running)));
}

#[test]
fn fixed_instance_refuses_the_task() {
    let flow = with_id(InstanceAddrSelectResult::Fixed(text("z")));
    assert_eq!(recorded(&flow).instance_addr.as_str(), "");
    let flow = flow.resume(Reply::Raft(true), 3);
    assert!(matches!(flow.action(), Action::RunJob(r) if r.addr.as_str() == "z"));
    let flow = flow.resume(Reply::Run(Err(text("refused"))), 4);
    let task = recorded(&flow);
    assert_eq!(task.status, TaskStatusType::Error);
    assert_eq!(task.trigger_message.as_str(), "refused");
    assert_eq!(task.finish_time, 4);
    let flow = flow.resume(Reply::Raft(true), 6);
    match flow.action() {
        Action::Report(task) => {
            assert_eq!(task.status, TaskStatusType::Error);
            assert_eq!(task.finish_time, 6);
            assert_eq!(task.trigger_message.as_str(), "refused");
        }
        _ => panic!("wrong action"),
    }
    let flow = flow.resume(Reply::Reported, 7);
    assert!(matches!(flow.action(), Action::Finish));
}

#[test]
fn broadcast_runs_whatever_the_instances_answer() {
    let flow = with_id(InstanceAddrSelectResult::ALL(vec![text("x"), text("y")]));
    assert_eq!(recorded(&flow).instance_addr.as_str(), "");
    let flow = flow.resume(Reply::Raft(true), 3);
    assert!(matches!(flow.action(), Action::RunJob(r) if r.addr.as_str() == "x"));
    let flow = flow.resume(Reply::Run(Err(text("no"))), 4);
    assert!(matches!(flow.action(), Action::RunJob(r) if r.addr.as_str() == "y"));
    let flow = flow.resume(Reply::Run(Err(text("no"))), 5);
    let task = recorded(&flow);
    assert_eq!(task.status, TaskStatusType::Running);
    assert_eq!(task.trigger_message.as_str(), "");
    let flow = flow.resume(Reply::Raft(true), 6);
    assert!(matches!(flow.action(), Action::Finish));
}

#[test]
fn broadcast_to_nobody_runs() {
    let flow = with_id(InstanceAddrSelectResult::ALL(vec![])).resume(Reply::Raft(true), 3);
    assert_eq!(recorded(&flow).status, TaskStatusType::Running);
}

#[test]
fn without_instance_the_task_fails() {
    let flow = with_id(InstanceAddrSelectResult::Empty);
    assert_eq!(recorded(&flow).status, TaskStatusType::Running);
    let flow = flow.resume(Reply::Raft(true), 3);
    let task = recorded(&flow);
    assert_eq!(task.status, TaskStatusType::Error);
    assert_eq!(task.trigger_message.as_str(), "no instance selected");
    assert_eq!(task.finish_time, 3);
    let flow = flow.resume(Reply::Raft(false), 4);
    assert!(matches!(flow.action(), Action::Report(t) if t.finish_time == 4));
}

#[test]
fn without_id_the_task_fails_and_goes_nowhere() {
    let wrong = [None, Some(SequenceResult::Range(SeqRange { start: 1 }))];
    for result in wrong {
        let flow = started(5)
            .resume(Reply::Selected(InstanceAddrSelectResult::Selected(text("x"))), 1)
            .resume(Reply::Sequence(result), 8);
        let task = recorded(&flow);
        assert_eq!(task.task_id, 0);
        assert_eq!(task.status, TaskStatusType::Error);
        assert_eq!(task.trigger_message.as_str(), "get task id error!");
        assert_eq!(task.finish_time, 8);
        assert_eq!(task.instance_addr.as_str(), "");
        let flow = flow.resume(Reply::Raft(true), 9);
        assert!(matches!(flow.action(), Action::Report(t) if t.finish_time == 9));
    }
}

#[test]
fn a_stray_reply_changes_nothing() {
    let flow = started(5).resume(Reply::Raft(true), 1).resume(Reply::Reported, 2);
    assert!(matches!(flow.action(), Action::SelectInstance(_)));
}

#[test]
fn what_an_instance_answers_becomes_the_reply() {
    assert!(matches!(Reply::of_run_job(Ok::<u8, String>(7)), Reply::Run(Ok(()))));
    match Reply::of_run_job(Err::<u8, String>("down".to_string())) {
        Reply::Run(Err(message)) => assert_eq!(message.as_str(), "down"),
        _ => panic!("wrong reply"),
    }
}
