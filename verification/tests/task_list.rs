use ratch_job::error::TaskError;
use ratch_job::exchange::{
    Action, JobManagerRaftReq, Reply, SeqRange, SequenceRequest, SequenceResult, SEQ_TASK_ID,
};
use ratch_job::manager::{TaskManager, ERR_MSG_NOT_FOUND_APP_INSTANCE_ADDR};
use ratch_job::model::{
    AppConfig, AppKey, InstanceAddrSelectResult, JobInfo, JobTaskInfo, TaskStatusType, TaskWrap,
    TriggerItem,
};
use ratch_job::task_list::{
    fetch_task_ids, init_tasks, notify_update_task, TaskListEnd, TriggerTaskList,
};
use std::sync::Arc;

fn text(s: &str) -> Arc<String> {
    Arc::new(s.to_string())
}

fn job(app: &str, id: u64) -> Arc<JobInfo> {
    Arc::new(JobInfo {
        id,
        app_name: text(app),
        namespace: text("ns"),
        router_strategy: text("FIRST"),
    })
}

fn item(app: &str, id: u64, fix_addr: &str) -> TriggerItem {
    TriggerItem { trigger_time: 100 + id as u32, job_info: job(app, id), fix_addr: text(fix_addr) }
}

fn manager() -> TaskManager {
    let config = Arc::new(AppConfig { xxl_default_access_token: String::new() });
    let mut manager = TaskManager::new(config, "0.1.0");
    manager.inject(true, true, true);
    manager.add_app_instance(AppKey::new(text("a"), text("ns")), text("x"));
    manager.add_app_instance(AppKey::new(text("a"), text("ns")), text("y"));
    manager
}

fn flow(items: Vec<TriggerItem>) -> TriggerTaskList {
    match manager().trigger_task_list(items) {
        Ok(Some(flow)) => flow,
        _ => panic!("no flow"),
    }
}

fn range(start: u64) -> Reply {
    Reply::Sequence(Some(SequenceResult::Range(SeqRange { start })))
}

fn recorded(flow: &TriggerTaskList) -> Vec<Arc<JobTaskInfo>> {
    match flow.action() {
        Action::Raft(JobManagerRaftReq::UpdateTaskList(tasks)) => tasks,
        _ => panic!("nothing to record"),
    }
}

fn to_wrap(flow: &TriggerTaskList) -> Vec<(JobTaskInfo, Arc<JobInfo>)> {
    match flow.action() {
        Action::BuildTaskWrap(tasks) => tasks,
        _ => panic!("nothing to join"),
    }
}

fn sent_to(flow: &TriggerTaskList) -> (u64, String) {
    match flow.action() {
        Action::RunJob(request) => (request.param.task_id, request.addr.to_string()),
        _ => panic!("nothing to send"),
    }
}

fn ids(tasks: &Vec<Arc<JobTaskInfo>>) -> Vec<u64> {
    tasks.iter().map(|t| t.task_id).collect()
}

#[test]
fn ids_are_consecutive() {
    let items = vec![item("a", 1, ""), item("b", 2, "fixed"), item("a", 3, "")];
    let tasks = init_tasks(&items, SeqRange { start: 70 });
    assert_eq!(tasks.len(), 3);
    for (i, (task, job)) in tasks.iter().enumerate() {
        assert_eq!(task.task_id, 70 + i as u64);
        assert_eq!(task.job_id, 1 + i as u64);
        assert_eq!(task.trigger_time, 101 + i as u32);
        assert_eq!(task.status, TaskStatusType::Init);
        assert_eq!(job.id, 1 + i as u64);
    }
    assert_eq!(tasks[0].0.instance_addr.as_str(), "");
    assert_eq!(tasks[1].0.instance_addr.as_str(), "fixed");
}

#[test]
fn ids_may_reach_the_largest() {
    let tasks = init_tasks(&vec![item("a", 1, "")], SeqRange { start: u64::MAX - 1 });
    assert_eq!(tasks[0].0.task_id, u64::MAX - 1);
}

#[test]
fn only_a_range_gives_ids() {
    assert!(matches!(
        fetch_task_ids(SequenceResult::Range(SeqRange { start: 5 })),
        Ok(SeqRange { start: 5 })
    ));
    assert!(matches!(fetch_task_ids(SequenceResult::NextId(5)), Err(TaskError::NoTaskIdRange)));
}

#[test]
fn nothing_to_record_is_no_request() {
    assert!(notify_update_task(vec![]).is_none());
    let task = Arc::new(JobTaskInfo::from_job(1, &job("a", 4)));
    match notify_update_task(vec![task]) {
        Some(JobManagerRaftReq::UpdateTaskList(tasks)) => assert_eq!(tasks[0].job_id, 4),
        _ => panic!("no request"),
    }
}

#[test]
fn tasks_are_split_by_instance() {
    let items = vec![item("a", 1, ""), item("b", 2, ""), item("a", 3, ""), item("a", 4, "")];
    let tasks = init_tasks(&items, SeqRange { start: 10 });
    let selects = vec![
        InstanceAddrSelectResult::Selected(text("x")),
        InstanceAddrSelectResult::Selected(text("p")),
        InstanceAddrSelectResult::Empty,
        InstanceAddrSelectResult::ALL(vec![text("x"), text("y")]),
    ];
    let (wraps, ignored) = manager().build_task_wrap(tasks, selects, 55);
    let out: Vec<u64> = wraps.iter().map(|w| w.task.task_id).collect();
    assert_eq!(out, vec![10, 13]);
    assert_eq!(ids(&ignored), vec![11, 12]);
    assert_eq!(wraps[0].app_addrs, vec![text("x"), text("y")]);
    assert_eq!(wraps[0].task.status, TaskStatusType::Init);
    assert_eq!(wraps[0].job_info.id, 1);
    assert!(matches!(&wraps[0].select_result, InstanceAddrSelectResult::Selected(a) if a.as_str() == "x"));
    assert!(matches!(&wraps[1].select_result, InstanceAddrSelectResult::ALL(a) if a.len() == 2));
    for task in ignored {
        assert_eq!(task.status, TaskStatusType::Error);
        assert_eq!(task.finish_time, 55);
        assert_eq!(task.trigger_message.as_str(), ERR_MSG_NOT_FOUND_APP_INSTANCE_ADDR);
    }
}

#[test]
fn a_list_runs_to_its_end() {
    let flow = flow(vec![
        item("a", 1, ""),
        item("b", 2, ""),
        item("a", 3, ""),
        item("a", 4, ""),
        item("a", 5, ""),
    ]);
    match flow.action() {
        Action::Sequence(SequenceRequest::GetDirectRange(name, len)) => {
            assert_eq!(name.as_str(), SEQ_TASK_ID);
            assert_eq!(len, 5);
        }
        _ => panic!("wrong action"),
    }
    let flow = flow.resume(range(30), 1);
    let tasks = recorded(&flow);
    assert_eq!(ids(&tasks), vec![30, 31, 32, 33, 34]);
    assert!(tasks.iter().all(|t| t.status == TaskStatusType::Init));
    let flow = flow.resume(Reply::Raft(true), 2);
    let selects = vec![
        InstanceAddrSelectResult::Selected(text("x")),
        InstanceAddrSelectResult::Empty,
        InstanceAddrSelectResult::ALL(vec![text("x"), text("y")]),
        InstanceAddrSelectResult::Fixed(text("y")),
        InstanceAddrSelectResult::ALL(vec![]),
    ];
    assert!(flow.result().is_none());
    let flow = manager().join_task_list(flow, selects, 3);
    assert_eq!(ids(&recorded(&flow)), vec![31]);
    assert_eq!(recorded(&flow)[0].finish_time, 3);
    let flow = flow.resume(Reply::Raft(true), 4);
    assert_eq!(sent_to(&flow), (30, "x".to_string()));
    let flow = flow.resume(Reply::Run(Err(text("down"))), 5);
    assert_eq!(sent_to(&flow), (32, "x".to_string()));
    let flow = flow.resume(Reply::Run(Err(text("down"))), 6);
    assert_eq!(sent_to(&flow), (32, "y".to_string()));
    let flow = flow.resume(Reply::Run(Ok(())), 7);
    assert_eq!(sent_to(&flow), (33, "y".to_string()));
    match flow.action() {
        Action::RunJob(request) => {
            assert_eq!(
                *request.header,
                vec![
                    ("Content-Type".to_string(), "application/json".to_string()),
                    ("User-Agent".to_string(), "ratch-job/0.1.0".to_string()),
                ]
            );
            assert_eq!(request.param.log_date_time, Some(104_000));
            assert_eq!(request.param.job_info.id, 4);
        }
        _ => panic!("wrong action"),
    }
    let flow = flow.resume(Reply::Run(Ok(())), 8);
    let done = recorded(&flow);
    assert_eq!(ids(&done), vec![30, 32, 33, 34]);
    assert_eq!(done[0].status, TaskStatusType::Error);
    assert_eq!(done[0].trigger_message.as_str(), "down");
    assert_eq!(done[0].finish_time, 5);
    for task in &done[1..] {
        assert_eq!(task.status, TaskStatusType::Running);
        assert_eq!(task.trigger_message.as_str(), "");
        assert_eq!(task.finish_time, 0);
    }
    let flow = flow.resume(Reply::Raft(true), 9);
    assert!(matches!(flow.action(), Action::Finish));
    assert_eq!(flow.result(), Some(TaskListEnd::Completed));
}

#[test]
fn unrecorded_results_fail_the_list() {
    let flow = flow(vec![item("a", 1, "")]).resume(range(1), 1).resume(Reply::Raft(true), 2);
    let selects = vec![InstanceAddrSelectResult::Selected(text("y"))];
    let flow = manager()
        .join_task_list(flow, selects, 3)
        .resume(Reply::Run(Err(text("down"))), 4)
        .resume(Reply::Raft(false), 5);
    assert_eq!(flow.result(), Some(TaskListEnd::ResultsNotRecorded));
}

#[test]
fn each_task_of_a_known_application_is_asked_for_in_order() {
    let items = vec![item("a", 1, ""), item("b", 2, ""), item("a", 3, "")];
    let tasks = init_tasks(&items, SeqRange { start: 1 });
    let requests = manager().select_requests(&tasks);
    assert_eq!(requests.len(), 3);
    assert!(requests[1].is_none());
    for (k, id) in [(0, 1), (2, 3)] {
        let request = requests[k].as_ref().unwrap();
        assert_eq!(request.job_id, id);
        assert_eq!(request.router_strategy.as_str(), "FIRST");
        assert_eq!(request.instance_keys, vec![text("x"), text("y")]);
    }
}

#[test]
fn joining_concerns_a_waiting_flow_only() {
    let flow = manager().join_task_list(flow(vec![item("a", 1, "")]), vec![], 1);
    assert!(matches!(flow.action(), Action::Sequence(_)));
}

#[test]
fn without_ids_nothing_happens() {
    for result in [None, Some(SequenceResult::NextId(4))] {
        let flow = flow(vec![item("a", 1, "")]).resume(Reply::Sequence(result), 1);
        assert_eq!(flow.result(), Some(TaskListEnd::NoTaskIds));
        let flow = flow.resume(Reply::Raft(true), 2);
        assert!(matches!(flow.action(), Action::Finish));
    }
}

#[test]
fn unrecorded_tasks_do_not_go_out() {
    let flow = flow(vec![item("a", 1, "")])
        .resume(range(1), 1)
        .resume(Reply::Raft(false), 2);
    assert!(matches!(flow.action(), Action::Finish));
    assert_eq!(flow.result(), Some(TaskListEnd::TasksNotRecorded));
}

#[test]
fn unrecorded_failures_stop_the_others() {
    let flow = flow(vec![item("a", 1, ""), item("b", 2, "")])
        .resume(range(1), 1)
        .resume(Reply::Raft(true), 2);
    let selects = vec![InstanceAddrSelectResult::Fixed(text("x")), InstanceAddrSelectResult::Empty];
    let (wraps, ignored) = manager().build_task_wrap(to_wrap(&flow), selects, 3);
    let flow = flow.resume(Reply::Wrapped(wraps, ignored), 3).resume(Reply::Raft(false), 4);
    assert!(matches!(flow.action(), Action::Finish));
    assert_eq!(flow.result(), Some(TaskListEnd::IgnoredNotRecorded));
}

#[test]
fn with_every_task_given_up_nothing_is_recorded_at_the_end() {
    let flow = flow(vec![item("b", 1, "")])
        .resume(range(1), 1)
        .resume(Reply::Raft(true), 2);
    let selects = vec![InstanceAddrSelectResult::Empty];
    let (wraps, ignored) = manager().build_task_wrap(to_wrap(&flow), selects, 3);
    let flow = flow.resume(Reply::Wrapped(wraps, ignored), 3);
    assert_eq!(ids(&recorded(&flow)), vec![1]);
    let flow = flow.resume(Reply::Raft(true), 4);
    assert!(matches!(flow.action(), Action::Finish));
}

#[test]
fn a_wrap_without_instance_is_recorded_unchanged() {
    let flow = flow(vec![item("a", 1, "")])
        .resume(range(1), 1)
        .resume(Reply::Raft(true), 2);
    let (task, job_info) = to_wrap(&flow).remove(0);
    let wrap = TaskWrap {
        task,
        job_info,
        select_result: InstanceAddrSelectResult::Empty,
        app_addrs: vec![],
    };
    let flow = flow.resume(Reply::Wrapped(vec![wrap], vec![]), 3);
    let done = recorded(&flow);
    assert_eq!(ids(&done), vec![1]);
    assert_eq!(done[0].status, TaskStatusType::Init);
}

#[test]
fn a_stray_reply_leaves_the_list_waiting() {
    let flow = flow(vec![item("a", 1, "")]).resume(Reply::Raft(true), 1);
    assert!(matches!(flow.action(), Action::Sequence(_)));
    let flow = flow.resume(range(1), 2).resume(Reply::Run(Ok(())), 3);
    assert_eq!(ids(&recorded(&flow)), vec![1]);
}

fn split(manager: &TaskManager, apps: &[(&str, u64)], start: u64) -> (Vec<u64>, Vec<u64>) {
    let items: Vec<TriggerItem> = apps.iter().map(|(app, id)| item(app, *id, "")).collect();
    let tasks = init_tasks(&items, SeqRange { start });
    let selects = apps.iter().map(|_| InstanceAddrSelectResult::Fixed(text("x"))).collect();
    let (wraps, ignored) = manager.build_task_wrap(tasks, selects, 1);
    (wraps.iter().map(|w| w.task.task_id).collect(), ids(&ignored))
}

#[test]
fn joining_two_lists_is_joining_one_after_the_other() {
    let manager = manager();
    let first = split(&manager, &[("a", 1), ("b", 2)], 10);
    let second = split(&manager, &[("b", 3), ("a", 4)], 12);
    let both = split(&manager, &[("a", 1), ("b", 2), ("b", 3), ("a", 4)], 10);
    assert_eq!(both.0, vec![10, 13]);
    assert_eq!(both.1, vec![11, 12]);
    assert_eq!(both.0, [first.0, second.0].concat());
    assert_eq!(both.1, [first.1, second.1].concat());
}

#[test]
fn tasks_with_one_id_keep_their_order() {
    let manager = manager();
    let mut tasks = init_tasks(
        &vec![item("a", 1, ""), item("a", 2, ""), item("b", 3, ""), item("b", 4, "")],
        SeqRange { start: 5 },
    );
    for task in tasks.iter_mut() {
        task.0.task_id = 5;
    }
    let selects = (0..4).map(|_| InstanceAddrSelectResult::Fixed(text("x"))).collect();
    let (wraps, ignored) = manager.build_task_wrap(tasks, selects, 1);
    let out: Vec<u64> = wraps.iter().map(|w| w.task.job_id).collect();
    let up: Vec<u64> = ignored.iter().map(|t| t.job_id).collect();
    assert_eq!(out, vec![1, 2]);
    assert_eq!(up, vec![3, 4]);
}

fn send_out(apps: &[(u64, &[&str])]) -> Vec<(u64, String)> {
    let items: Vec<TriggerItem> = apps.iter().map(|(id, _)| item("a", *id, "")).collect();
    let start = apps[0].0;
    let selects = apps
        .iter()
        .map(|(_, addrs)| InstanceAddrSelectResult::ALL(addrs.iter().map(|a| text(a)).collect()))
        .collect();
    let flow = flow(items).resume(range(start), 1).resume(Reply::Raft(true), 2);
    let mut flow = manager().join_task_list(flow, selects, 3);
    let mut requests = vec![];
    while matches!(flow.action(), Action::RunJob(_)) {
        requests.push(sent_to(&flow));
        flow = flow.resume(Reply::Run(Ok(())), 4);
    }
    requests
}

#[test]
fn sending_two_lists_is_sending_one_after_the_other() {
    let first = send_out(&[(1, &["x", "y"]), (2, &[])]);
    let second = send_out(&[(3, &["y"])]);
    let both = send_out(&[(1, &["x", "y"]), (2, &[]), (3, &["y"])]);
    assert_eq!(
        both,
        vec![(1, "x".to_string()), (1, "y".to_string()), (3, "y".to_string())]
    );
    assert_eq!(both, [first, second].concat());
}
