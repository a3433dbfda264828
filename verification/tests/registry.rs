use ratch_job::error::TaskError;
use ratch_job::exchange::SelectRequest;
use ratch_job::group::AppInstanceStateGroup;
use ratch_job::manager::{TaskFlow, TaskManager, TaskManagerReq};
use ratch_job::model::{AppConfig, AppInstanceKey, AppKey, JobInfo, TriggerItem};
use std::sync::Arc;

fn text(s: &str) -> Arc<String> {
    Arc::new(s.to_string())
}

fn key(app: &str) -> AppKey {
    AppKey::new(text(app), text("ns"))
}

fn job(app: &str, id: u64) -> Arc<JobInfo> {
    Arc::new(JobInfo {
        id,
        app_name: text(app),
        namespace: text("ns"),
        router_strategy: text("FIRST"),
    })
}

fn instance(app: &str, addr: &str) -> AppInstanceKey {
    AppInstanceKey { app_name: text(app), namespace: text("ns"), addr: text(addr) }
}

fn manager() -> TaskManager {
    let config = Arc::new(AppConfig { xxl_default_access_token: String::new() });
    TaskManager::new(config, "0.1.0")
}

fn addrs(request: &SelectRequest) -> Vec<String> {
    request.instance_keys.iter().map(|a| a.to_string()).collect()
}

fn listed(manager: &TaskManager, app: &str) -> Option<Vec<String>> {
    manager.select_request(&job(app, 1)).map(|r| addrs(&r))
}

#[test]
fn header_without_token() {
    let manager = manager();
    assert_eq!(
        *manager.xxl_request_header(),
        vec![
            ("Content-Type".to_string(), "application/json".to_string()),
            ("User-Agent".to_string(), "ratch-job/0.1.0".to_string()),
        ]
    );
}

#[test]
fn header_with_token() {
    let config = Arc::new(AppConfig { xxl_default_access_token: "t0k".to_string() });
    let manager = TaskManager::new(config, "2");
    assert_eq!(manager.xxl_request_header().len(), 3);
    assert_eq!(manager.xxl_request_header()[1].1, "ratch-job/2");
    assert_eq!(
        manager.xxl_request_header()[2],
        ("XXL-JOB-ACCESS-TOKEN".to_string(), "t0k".to_string())
    );
}

#[test]
fn app_key_keeps_its_parts() {
    let key = AppKey::new(text("app"), text("space"));
    assert_eq!(key.app_name.as_str(), "app");
    assert_eq!(key.namespace.as_str(), "space");
    let built = job("app", 1).build_app_key();
    assert_eq!(built.app_name.as_str(), "app");
    assert_eq!(built.namespace.as_str(), "ns");
}

#[test]
fn group_lists_each_address_once() {
    let mut group = AppInstanceStateGroup::new(key("a"));
    assert!(group.instance_keys.is_empty());
    group.add_instance(text("x"));
    group.add_instance(text("y"));
    group.add_instance(text("x"));
    group.add_instance(text("z"));
    assert_eq!(group.instance_keys, vec![text("x"), text("y"), text("z")]);
    group.remove_instance(text("y"));
    group.remove_instance(text("none"));
    assert_eq!(group.instance_keys, vec![text("x"), text("z")]);
}

#[test]
fn added_instances_are_listed_in_order() {
    let mut manager = manager();
    assert_eq!(listed(&manager, "a"), None);
    manager.add_app_instance(key("a"), text("x"));
    manager.add_app_instance(key("b"), text("p"));
    manager.add_app_instance(key("a"), text("y"));
    manager.add_app_instance(key("a"), text("x"));
    assert_eq!(listed(&manager, "a"), Some(vec!["x".to_string(), "y".to_string()]));
    assert_eq!(listed(&manager, "b"), Some(vec!["p".to_string()]));
}

#[test]
fn namespaces_keep_applications_apart() {
    let mut manager = manager();
    manager.add_app_instance(AppKey::new(text("a"), text("other")), text("x"));
    assert_eq!(listed(&manager, "a"), None);
}

#[test]
fn removing_undoes_adding() {
    let mut manager = manager();
    manager.add_app_instance(key("a"), text("x"));
    manager.add_app_instance(key("a"), text("y"));
    manager.remove_app_instance(key("a"), text("y"));
    assert_eq!(listed(&manager, "a"), Some(vec!["x".to_string()]));
    manager.remove_app_instance(key("a"), text("y"));
    assert_eq!(listed(&manager, "a"), Some(vec!["x".to_string()]));
}

#[test]
fn application_without_instances_stays_known() {
    let mut manager = manager();
    manager.add_app_instance(key("a"), text("x"));
    manager.remove_app_instance(key("a"), text("x"));
    assert_eq!(listed(&manager, "a"), Some(vec![]));
}

#[test]
fn removing_from_an_unknown_application_changes_nothing() {
    let mut manager = manager();
    manager.remove_app_instance(key("a"), text("x"));
    assert_eq!(listed(&manager, "a"), None);
}

#[test]
fn select_request_names_job_and_strategy() {
    let mut manager = manager();
    manager.add_app_instance(key("a"), text("x"));
    let request = manager.select_request(&job("a", 42)).unwrap();
    assert_eq!(request.job_id, 42);
    assert_eq!(request.router_strategy.as_str(), "FIRST");
    assert_eq!(request.app_key.app_name.as_str(), "a");
    assert_eq!(request.app_key.namespace.as_str(), "ns");
}

#[test]
fn batches_are_handled_as_their_parts() {
    let mut batch = manager();
    let added = batch.handle(TaskManagerReq::AddAppInstances(vec![
        instance("a", "x"),
        instance("b", "p"),
        instance("a", "y"),
    ]));
    assert!(matches!(added, Ok(TaskFlow::Nothing)));
    let mut parts = manager();
    for (app, addr) in [("a", "x"), ("b", "p"), ("a", "y")] {
        assert!(parts.handle(TaskManagerReq::AddAppInstance(key(app), text(addr))).is_ok());
    }
    assert_eq!(listed(&batch, "a"), listed(&parts, "a"));
    assert_eq!(listed(&batch, "b"), listed(&parts, "b"));
    let removed = batch.handle(TaskManagerReq::RemoveAppInstances(vec![
        instance("a", "x"),
        instance("b", "p"),
        instance("c", "q"),
    ]));
    assert!(matches!(removed, Ok(TaskFlow::Nothing)));
    assert_eq!(listed(&batch, "a"), Some(vec!["y".to_string()]));
    assert_eq!(listed(&batch, "b"), Some(vec![]));
    assert_eq!(listed(&batch, "c"), None);
    assert!(batch.handle(TaskManagerReq::RemoveAppInstance(key("a"), text("y"))).is_ok());
    assert_eq!(listed(&batch, "a"), Some(vec![]));
}

fn item(app: &str) -> TriggerItem {
    TriggerItem { trigger_time: 7, job_info: job(app, 1), fix_addr: text("") }
}

#[test]
fn triggering_one_task_needs_all_collaborators() {
    for (sequence, jobs, raft) in [(false, true, true), (true, false, true), (true, true, false)] {
        let mut manager = manager();
        manager.add_app_instance(key("a"), text("x"));
        manager.inject(sequence, jobs, raft);
        let refused = manager.handle(TaskManagerReq::TriggerTask(7, job("a", 1)));
        assert!(matches!(refused, Err(TaskError::CollaboratorMissing)));
        assert_eq!(listed(&manager, "a"), Some(vec!["x".to_string()]));
    }
}

#[test]
fn triggering_a_task_of_an_unknown_application_starts_nothing() {
    let mut manager = manager();
    manager.inject(true, true, true);
    let flow = manager.handle(TaskManagerReq::TriggerTask(7, job("a", 1)));
    assert!(matches!(flow, Ok(TaskFlow::Nothing)));
    manager.add_app_instance(key("a"), text("x"));
    let flow = manager.handle(TaskManagerReq::TriggerTask(7, job("a", 1)));
    assert!(matches!(flow, Ok(TaskFlow::RunTask(_))));
}

#[test]
fn triggering_a_list_needs_sequence_and_record() {
    for (sequence, jobs, raft) in [(false, true, true), (true, true, false)] {
        let mut manager = manager();
        manager.inject(sequence, jobs, raft);
        let refused = manager.handle(TaskManagerReq::TriggerTaskList(vec![item("a")]));
        assert!(matches!(refused, Err(TaskError::CollaboratorMissing)));
    }
    let mut manager = manager();
    manager.inject(true, false, true);
    let flow = manager.handle(TaskManagerReq::TriggerTaskList(vec![item("a")]));
    assert!(matches!(flow, Ok(TaskFlow::TriggerTaskList(_))));
}

#[test]
fn an_empty_list_is_never_refused() {
    let mut manager = manager();
    let flow = manager.handle(TaskManagerReq::TriggerTaskList(vec![]));
    assert!(matches!(flow, Ok(TaskFlow::Nothing)));
}

#[test]
fn errors_in_words() {
    assert_eq!(
        TaskError::CollaboratorMissing.message(),
        "sequence_manager or job_manager is none"
    );
    assert_eq!(TaskError::NoTaskIdRange.message(), "sequence_manager get direct range error");
}

#[test]
fn applications_can_change_in_either_order() {
    let mut first = manager();
    first.add_app_instance(key("a"), text("x"));
    first.add_app_instance(key("b"), text("p"));
    first.remove_app_instance(key("b"), text("p"));
    first.add_app_instance(key("a"), text("y"));
    let mut second = manager();
    second.add_app_instance(key("b"), text("p"));
    second.add_app_instance(key("a"), text("x"));
    second.add_app_instance(key("a"), text("y"));
    second.remove_app_instance(key("b"), text("p"));
    assert_eq!(listed(&first, "a"), listed(&second, "a"));
    assert_eq!(listed(&first, "b"), listed(&second, "b"));
}

#[test]
fn triggering_leaves_the_instances_alone() {
    let mut manager = manager();
    manager.inject(true, true, true);
    manager.add_app_instance(key("a"), text("x"));
    assert!(manager.handle(TaskManagerReq::TriggerTask(7, job("a", 1))).is_ok());
    assert!(manager.handle(TaskManagerReq::TriggerTaskList(vec![item("a")])).is_ok());
    assert_eq!(listed(&manager, "a"), Some(vec!["x".to_string()]));
    assert_eq!(manager.xxl_request_header().len(), 2);
}
